use opengemini_engine::syscontrol::{ControlResponse, ControlValue, SystemControls};

#[test]
fn test_control_response_default() {
    let response = ControlResponse::default();
    assert!(response.success);
    assert!(response.message.is_empty());
    assert!(response.data.is_none());
}

#[test]
fn test_system_controls_creation() {
    let controls = SystemControls::new();

    assert!(controls.is_write_enabled());
    assert!(controls.is_read_enabled());
    assert!(controls.is_compaction_enabled());
    assert!(controls.is_merge_enabled());
}

#[test]
fn test_process_control_command() {
    let mut controls = SystemControls::new();

    let response = controls.process_command("flush", &[], false);
    assert!(!response.success);
    assert!(response.message.contains("Engine not initialized"));

    let response = controls.process_command("unknown_cmd", &[], false);
    assert!(!response.success);
    assert!(response.message.contains("Unknown command"));
}

#[test]
fn test_compaction_control() {
    let mut controls = SystemControls::new();

    let response = controls.process_command("compen", &[("switchon", "false")], false);
    assert!(response.success);
}

#[test]
fn test_readonly_control() {
    let mut controls = SystemControls::new();

    let response = controls.process_command("readonly", &[("switchon", "true")], false);
    assert!(response.success);
}

#[test]
fn test_mem_usage_limit() {
    let mut controls = SystemControls::new();

    let response = controls.process_command("memusagelimit", &[("limit", "90")], false);
    assert!(response.success);
    assert!(response.data.is_some());
}

#[test]
fn control_messages_and_data() {
    let mut controls = SystemControls::new();
    let r = controls.process_command("memusagelimit", &[("limit", "x")], true);
    assert_eq!(r.message, "Memory usage limit set to: 85%");
    assert_eq!(r.data, Some(("mem_limit_percent".to_string(), ControlValue::Number(85))));
    let r = controls.process_command("compen", &[("enabled", "0"), ("switchon", "1")], true);
    assert_eq!(r.message, "Compaction set to: false");
    let r = controls.process_command("downsample_in_order", &[], true);
    assert_eq!(r.data, Some(("downsample_in_order".to_string(), ControlValue::Flag(true))));
    let r = controls.process_command("backgroundreadlimiter", &[], true);
    assert_eq!(r.message, "Background read limiter set to: 100m");
    let r = controls.process_command("chunk_reader_parallel", &[("limit", "8")], true);
    assert_eq!(r.message, "Chunk reader parallel limit set to: 8");
    let r = controls.process_command("flush", &[], true);
    assert!(r.success);
    assert_eq!(r.message, "Flush completed successfully");
    let r = controls.process_command("bogus", &[], true);
    assert_eq!(r.message, "Unknown command: bogus");
    assert!(controls.is_write_enabled());
}
