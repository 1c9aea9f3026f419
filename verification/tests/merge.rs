use opengemini_engine::config::{CompactionConfig, CompressionType, TsspConfig};
use opengemini_engine::merge::{MergeCandidate, MergeResult, MergeScheduler, MergeTool};
use opengemini_engine::tssp::FileMeta;

fn create_test_file_meta(id: u64, min_time: i64, max_time: i64, size: u64) -> FileMeta {
    FileMeta {
        file_id: id,
        min_time,
        max_time,
        size,
        bloom_filter_data: None,
    }
}

fn data_config() -> TsspConfig {
    TsspConfig {
        data_dir: "/data".to_string(),
        max_file_size: 256 * 1024 * 1024,
        compression: CompressionType::Snappy,
    }
}

#[test]
fn test_merge_candidate_new() {
    let files = vec![
        create_test_file_meta(1, 100, 200, 1024),
        create_test_file_meta(2, 150, 250, 2048),
    ];
    let path = "/data".to_string();
    let candidate = MergeCandidate::new(files, path);

    assert!(candidate.is_valid());
    assert_eq!(candidate.total_size(), 3072);
    assert_eq!(candidate.time_range(), (100, 250));
}

#[test]
fn test_merge_candidate_invalid() {
    let files = vec![create_test_file_meta(1, 100, 200, 1024)];
    let path = "/data".to_string();
    let candidate = MergeCandidate::new(files, path);

    assert!(!candidate.is_valid());
}

#[test]
fn test_merge_result_new() {
    let result = MergeResult::new();
    assert!(result.input_files.is_empty());
    assert!(result.output_file.is_none());
    assert_eq!(result.rows_merged, 0);
}

#[test]
fn test_merge_result_with_output() {
    let meta = create_test_file_meta(100, 100, 200, 4096);
    let result = MergeResult::new().with_output(meta.clone());

    assert!(result.output_file.is_some());
    assert_eq!(result.output_file.unwrap().file_id, 100);
}

#[test]
fn test_merge_scheduler_new() {
    let config = CompactionConfig {
        enabled: true,
        max_concurrent: 4,
        trigger_interval_ms: 300000,
        max_file_age_hours: 24,
    };
    let scheduler = MergeScheduler::new(&config);

    assert!(scheduler.is_enabled());
    assert_eq!(scheduler.max_concurrent(), 4);
    assert!(scheduler.can_start_merge());
    assert_eq!(scheduler.in_progress_count(), 0);
}

#[test]
fn test_merge_scheduler_disabled() {
    let config = CompactionConfig {
        enabled: false,
        max_concurrent: 4,
        trigger_interval_ms: 300000,
        max_file_age_hours: 24,
    };
    let scheduler = MergeScheduler::new(&config);

    assert!(!scheduler.is_enabled());
}

#[test]
fn test_merge_scheduler_start_complete() {
    let config = CompactionConfig::default();
    let mut scheduler = MergeScheduler::new(&config);

    assert!(scheduler.start_merge(1));
    assert!(scheduler.start_merge(2));
    assert_eq!(scheduler.in_progress_count(), 2);

    let result = scheduler.complete_merge(1);
    assert!(result.is_some());
    assert_eq!(scheduler.in_progress_count(), 1);
}

#[test]
fn test_merge_scheduler_max_concurrent() {
    let config = CompactionConfig {
        enabled: true,
        max_concurrent: 2,
        trigger_interval_ms: 300000,
        max_file_age_hours: 24,
    };
    let mut scheduler = MergeScheduler::new(&config);

    assert!(scheduler.start_merge(1));
    assert!(scheduler.start_merge(2));
    assert!(!scheduler.can_start_merge());
    assert!(!scheduler.start_merge(3));
}

#[test]
fn test_merge_scheduler_cancel() {
    let config = CompactionConfig::default();
    let mut scheduler = MergeScheduler::new(&config);

    assert!(scheduler.start_merge(1));
    assert!(scheduler.cancel_merge(1));
    assert!(!scheduler.cancel_merge(999));
    assert!(scheduler.can_start_merge());
}

#[test]
fn test_merge_tool_select_candidates() {
    let tool = MergeTool::new(data_config());

    let files = vec![
        create_test_file_meta(1, 100, 200, 1024),
        create_test_file_meta(2, 200, 300, 2048),
        create_test_file_meta(3, 300, 400, 3072),
    ];

    let candidates = tool.select_merge_candidates(&files, 2);

    assert!(!candidates.is_empty());
}

#[test]
fn test_merge_tool_select_candidates_single_file() {
    let tool = MergeTool::new(data_config());

    let files = vec![create_test_file_meta(1, 100, 200, 1024)];

    let candidates = tool.select_merge_candidates(&files, 2);

    assert!(candidates.is_empty());
}

#[test]
fn select_runs_are_time_ordered_and_leave_a_lone_last_file() {
    let tool = MergeTool::new(data_config());
    let files = vec![
        create_test_file_meta(3, 300, 400, 1),
        create_test_file_meta(1, 100, 200, 1),
        create_test_file_meta(2, 200, 300, 1),
    ];
    let candidates = tool.select_merge_candidates(&files, 2);
    assert_eq!(candidates.len(), 1);
    let ids: Vec<u64> = candidates[0].files.iter().map(|f| f.file_id).collect();
    assert_eq!(ids, vec![1, 2]);
    assert_eq!(candidates[0].output_path, "/data");
}

#[test]
fn merge_skips_candidates_with_fewer_than_two_files() {
    let mut tool = MergeTool::new(data_config());
    let good = MergeCandidate::new(
        vec![create_test_file_meta(1, 0, 10, 100), create_test_file_meta(2, 10, 20, 50)],
        "/data".to_string(),
    );
    let lone = MergeCandidate::new(vec![create_test_file_meta(3, 0, 10, 7)], "/data".to_string());
    let results = tool.merge(vec![lone, good]).unwrap();
    assert_eq!(results.len(), 1);
    assert_eq!(results[0].rows_merged, 2);
    assert_eq!(results[0].bytes_written, 150);
    assert_eq!(results[0].input_files.len(), 2);
    assert_eq!(results[0].output_file.as_ref().unwrap().size, 0);
}

#[test]
fn completed_merge_is_reported_once() {
    let mut scheduler = MergeScheduler::new(&CompactionConfig::default());
    assert!(scheduler.start_merge(7));
    assert!(scheduler.get_merge_status(7).is_some());
    assert!(scheduler.complete_merge(7).is_some());
    assert!(scheduler.complete_merge(7).is_none());
    assert!(scheduler.get_merge_status(7).is_none());
}

#[test]
fn test_start_merge_counts_new_shards_once() {
    let config = CompactionConfig { max_concurrent: 2, ..CompactionConfig::default() };
    let mut s = MergeScheduler::new(&config);
    assert!(s.start_merge(1));
    assert_eq!(s.in_progress_count(), 1);
    assert!(s.start_merge(1));
    assert_eq!(s.in_progress_count(), 1);
    assert!(s.start_merge(2));
    assert_eq!(s.in_progress_count(), 2);
    assert!(!s.start_merge(3));
    assert_eq!(s.in_progress_count(), 2);
}
