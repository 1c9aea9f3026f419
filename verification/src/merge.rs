//! Merging of columnar files: choosing runs of files to merge, running the
//! merges, and tracking the merges in progress per shard.

use vstd::prelude::*;
use std::collections::HashMap;
use crate::config::{CompactionConfig, TsspConfig};
use crate::error::Error;
use crate::tssp::{FileMeta, FileMetaView, FileOrder, TsspWriter, file_views, duplicate_files, sort_files, stable_sort};
use crate::compaction::{sum_sizes, min_time_of, max_time_of, total_size_of, time_span_of};

verus! {

broadcast use vstd::std_specs::hash::group_hash_axioms;

/// A set of files to merge into one output location.
#[derive(Debug, Clone)]
pub struct MergeCandidate {
    pub files: Vec<FileMeta>,
    pub output_path: String,
}

impl MergeCandidate {
    /// A candidate of the given files.
    pub fn new(files: Vec<FileMeta>, output_path: String) -> (r: Self)
        ensures
            r.files == files,
            r.output_path == output_path,
    {
        MergeCandidate { files, output_path }
    }

    /// Whether the candidate holds exactly the given run of files and goes
    /// to the given path.
    pub open spec fn holds_run(&self, run: Seq<FileMetaView>, path: Seq<char>) -> bool {
        file_views(self.files@) == run && self.output_path@ == path
    }

    /// Whether the candidate has something to merge.
    pub open spec fn spec_is_valid(&self) -> bool {
        self.files@.len() >= 2
    }

    /// A merge needs at least two files.
    pub fn is_valid(&self) -> (r: bool)
        ensures
            r == self.spec_is_valid(),
    {
        !self.files.is_empty() && self.files.len() >= 2
    }

    /// The summed size of the files.
    pub fn total_size(&self) -> (r: u64)
        requires
            sum_sizes(file_views(self.files@)) <= u64::MAX,
        ensures
            r == sum_sizes(file_views(self.files@)),
    {
        total_size_of(self.files.as_slice())
    }

    /// The least minimum time and greatest maximum time of the files.
    pub fn time_range(&self) -> (r: (i64, i64))
        ensures
            r == (min_time_of(file_views(self.files@)), max_time_of(file_views(self.files@))),
    {
        time_span_of(self.files.as_slice())
    }
}

/// What one merge produced.
pub struct MergeResult {
    pub input_files: Vec<FileMeta>,
    pub output_file: Option<FileMeta>,
    pub rows_merged: usize,
    pub bytes_written: u64,
}

impl MergeResult {
    /// Whether the result records nothing yet.
    pub open spec fn is_fresh(&self) -> bool {
        &&& self.input_files@.len() == 0
        &&& self.output_file is None
        &&& self.rows_merged == 0
        &&& self.bytes_written == 0
    }

    /// A result that records nothing yet.
    pub fn new() -> (r: Self)
        ensures
            r.is_fresh(),
    {
        MergeResult { input_files: Vec::new(), output_file: None, rows_merged: 0, bytes_written: 0 }
    }

    /// The same result with the given output file.
    pub fn with_output(self, file: FileMeta) -> (r: Self)
        ensures
            r == (MergeResult { output_file: Some(file), ..self }),
    {
        MergeResult { output_file: Some(file), ..self }
    }
}

impl Default for MergeResult {
    fn default() -> (r: Self)
        ensures
            r.is_fresh(),
    {
        Self::new()
    }
}

/// The candidates among a list that have something to merge, in order.
pub open spec fn valid_candidates(s: Seq<MergeCandidate>) -> Seq<MergeCandidate>
    decreases s.len(),
{
    if s.len() == 0 {
        s
    } else if s.last().spec_is_valid() {
        valid_candidates(s.drop_last()).push(s.last())
    } else {
        valid_candidates(s.drop_last())
    }
}

/// Whether `r` is what merging the files of `c` produces: the same input
/// files, one row per file, the summed size written, and the writer's
/// (empty) output metadata.
pub open spec fn merged_from(r: MergeResult, c: MergeCandidate) -> bool {
    &&& file_views(r.input_files@) == file_views(c.files@)
    &&& r.rows_merged == c.files@.len()
    &&& r.bytes_written == sum_sizes(file_views(c.files@))
    &&& r.output_file matches Some(m) && m@ == FileMeta::empty_view()
}

/// Runs of files to merge from a time-ordered list: consecutive runs of
/// `max` files (the last one shorter), taken while at least two files
/// remain; a single file left at the end is not merged.
pub open spec fn merge_runs(s: Seq<FileMetaView>, max: nat) -> Seq<Seq<FileMetaView>>
    decreases s.len(),
{
    if s.len() < 2 || max == 0 {
        Seq::empty()
    } else {
        let b = if max < s.len() { max } else { s.len() };
        seq![s.take(b as int)] + merge_runs(s.skip(b as int), max)
    }
}

/// Merges runs of files into single files.
pub struct MergeTool {
    config: TsspConfig,
}

impl MergeTool {
    /// The configuration.
    pub closed spec fn spec_config(&self) -> TsspConfig {
        self.config
    }

    /// A tool with the given configuration.
    pub fn new(config: TsspConfig) -> (r: Self)
        ensures
            r.spec_config() == config,
    {
        MergeTool { config }
    }

    /// Merges every candidate that has at least two files, in order, and
    /// skips the others.
    pub fn merge(&mut self, candidates: Vec<MergeCandidate>) -> (r: Result<Vec<MergeResult>, Error>)
        requires
            forall|i: int| 0 <= i < candidates@.len() ==> sum_sizes(file_views(#[trigger] candidates@[i].files@)) <= u64::MAX,
        ensures
            final(self).spec_config() == old(self).spec_config(),
            r matches Ok(rs) && rs@.len() == valid_candidates(candidates@).len()
                && forall|i: int| 0 <= i < rs@.len() ==> merged_from(#[trigger] rs@[i], valid_candidates(candidates@)[i]),
    {
        let mut results: Vec<MergeResult> = Vec::new();
        let mut i: usize = 0;
        while i < candidates.len()
            invariant
                self.spec_config() == old(self).spec_config(),
                i <= candidates@.len(),
                forall|j: int| 0 <= j < candidates@.len() ==> sum_sizes(file_views(#[trigger] candidates@[j].files@)) <= u64::MAX,
                results@.len() == valid_candidates(candidates@.take(i as int)).len(),
                forall|j: int| 0 <= j < results@.len() ==> merged_from(#[trigger] results@[j], valid_candidates(candidates@.take(i as int))[j]),
            decreases candidates@.len() - i,
        {
            proof {
                assert(candidates@.take(i + 1).drop_last() =~= candidates@.take(i as int));
                assert(candidates@.take(i + 1).last() == candidates@[i as int]);
            }
            let candidate = &candidates[i];
            if candidate.is_valid() {
                let result = self.merge_single_candidate(candidate);
                results.push(result);
            }
            i = i + 1;
        }
        proof { assert(candidates@.take(candidates@.len() as int) =~= candidates@); }
        Ok(results)
    }

    fn merge_single_candidate(&mut self, candidate: &MergeCandidate) -> (r: MergeResult)
        requires
            sum_sizes(file_views(candidate.files@)) <= u64::MAX,
        ensures
            merged_from(r, *candidate),
            final(self).spec_config() == old(self).spec_config(),
    {
        let mut result = MergeResult::new();
        result.input_files = duplicate_files(candidate.files.as_slice());
        let writer = TsspWriter::new(self.config.clone());
        result.rows_merged = candidate.files.len();
        result.bytes_written = total_size_of(candidate.files.as_slice());
        let closed = writer.close();
        match closed {
            Ok(output_meta) => {
                result.output_file = Some(output_meta);
            },
            Err(_) => {},
        }
        result
    }

    /// Runs of files to merge: the files ordered by minimum time (stably),
    /// cut into runs of `max_files` while at least two files remain. Every
    /// run goes to the data directory.
    pub fn select_merge_candidates(&self, files: &[FileMeta], max_files: usize) -> (r: Vec<MergeCandidate>)
        requires
            max_files > 0 || files@.len() < 2,
        ensures
            r@.len() == merge_runs(stable_sort(FileOrder::OldestFirst, file_views(files@)), max_files as nat).len(),
            forall|i: int| 0 <= i < r@.len() ==> (#[trigger] r@[i]).holds_run(
                merge_runs(stable_sort(FileOrder::OldestFirst, file_views(files@)), max_files as nat)[i],
                self.spec_config().data_dir@),
    {
        let ghost sorted_v = stable_sort(FileOrder::OldestFirst, file_views(files@));
        let ghost max = max_files as nat;
        if files.len() < 2 {
            proof {
                crate::tssp::law_stable_sort_is_ordered_permutation(FileOrder::OldestFirst, file_views(files@));
            }
            return Vec::new();
        }
        let sorted = sort_files(FileOrder::OldestFirst, duplicate_files(files));
        proof {
            crate::tssp::law_stable_sort_is_ordered_permutation(FileOrder::OldestFirst, file_views(files@));
        }
        let n = sorted.len();
        let mut candidates: Vec<MergeCandidate> = Vec::new();
        let mut i: usize = 0;
        proof { assert(sorted_v.skip(0) =~= sorted_v); }
        while n - i >= 2
            invariant
                n == sorted_v.len(),
                file_views(sorted@) == sorted_v,
                max == max_files,
                max_files > 0,
                i <= n,
                candidates@.len() + merge_runs(sorted_v.skip(i as int), max).len() == merge_runs(sorted_v, max).len(),
                forall|j: int| 0 <= j < candidates@.len() ==> (#[trigger] candidates@[j]).holds_run(
                    merge_runs(sorted_v, max)[j], self.spec_config().data_dir@),
                forall|j: int| 0 <= j < merge_runs(sorted_v.skip(i as int), max).len() ==>
                    #[trigger] merge_runs(sorted_v.skip(i as int), max)[j] == merge_runs(sorted_v, max)[candidates@.len() + j],
            decreases n - i,
        {
            let batch_size = if max_files < n - i { max_files } else { n - i };
            let mut batch: Vec<FileMeta> = Vec::new();
            let mut j: usize = i;
            while j < i + batch_size
                invariant
                    i <= j <= i + batch_size <= n,
                    file_views(sorted@) == sorted_v,
                    n == sorted_v.len(),
                    batch@.len() == j - i,
                    forall|t: int| 0 <= t < batch@.len() ==> #[trigger] batch@[t]@ == sorted_v[i + t],
                decreases i + batch_size - j,
            {
                batch.push(sorted[j].duplicate());
                j = j + 1;
            }
            let ghost rest = sorted_v.skip(i as int);
            let ghost before: int = candidates@.len() as int;
            proof {
                assert(file_views(batch@) =~= rest.take(batch_size as int));
                assert(rest.skip(batch_size as int) =~= sorted_v.skip(i + batch_size));
                assert(merge_runs(rest, max) == seq![rest.take(batch_size as int)] + merge_runs(rest.skip(batch_size as int), max));
                assert(merge_runs(rest, max)[0] == merge_runs(sorted_v, max)[before]);
            }
            candidates.push(MergeCandidate::new(batch, self.config.data_dir.clone()));
            i = i + batch_size;
            proof {
                let next = sorted_v.skip(i as int);
                assert(next == rest.skip(batch_size as int));
                assert forall|j: int| 0 <= j < merge_runs(next, max).len() implies
                    #[trigger] merge_runs(next, max)[j] == merge_runs(sorted_v, max)[candidates@.len() + j] by {
                    assert(merge_runs(next, max)[j] == merge_runs(rest, max)[j + 1]);
                    assert(merge_runs(rest, max)[j + 1] == merge_runs(sorted_v, max)[before + (j + 1)]);
                }
            }
        }
        proof {
            assert(merge_runs(sorted_v.skip(i as int), max).len() == 0);
            assert(sorted_v == stable_sort(FileOrder::OldestFirst, file_views(files@)));
            assert(max == max_files as nat);
        }
        candidates
    }
}

/// The merges in progress, one per shard.
pub struct MergeScheduler {
    enabled: bool,
    max_concurrent: usize,
    in_progress: HashMap<u64, MergeResult>,
}

impl MergeScheduler {
    /// The merges in progress, by shard id.
    pub closed spec fn merges(&self) -> Map<u64, MergeResult> {
        self.in_progress@
    }

    /// Whether merging is enabled.
    pub closed spec fn spec_enabled(&self) -> bool {
        self.enabled
    }

    /// The largest number of merges that may run at once.
    pub closed spec fn spec_max_concurrent(&self) -> usize {
        self.max_concurrent
    }

    /// A scheduler with the configuration's switch and limit, and nothing
    /// in progress.
    pub fn new(config: &CompactionConfig) -> (r: Self)
        ensures
            r.spec_enabled() == config.enabled,
            r.spec_max_concurrent() == config.max_concurrent,
            r.merges() == Map::<u64, MergeResult>::empty(),
    {
        MergeScheduler {
            enabled: config.enabled,
            max_concurrent: config.max_concurrent,
            in_progress: HashMap::new(),
        }
    }

    /// Whether merging is enabled.
    pub fn is_enabled(&self) -> (r: bool)
        ensures
            r == self.spec_enabled(),
    {
        self.enabled
    }

    /// The largest number of merges that may run at once.
    pub fn max_concurrent(&self) -> (r: usize)
        ensures
            r == self.spec_max_concurrent(),
    {
        self.max_concurrent
    }

    /// Whether another merge may start.
    pub fn can_start_merge(&self) -> (r: bool)
        ensures
            r == (self.merges().len() < self.spec_max_concurrent()),
    {
        self.in_progress.len() < self.max_concurrent
    }

    /// Records a new merge for the shard, replacing any earlier record of
    /// it, when the limit allows; false otherwise.
    pub fn start_merge(&mut self, shard_id: u64) -> (r: bool)
        ensures
            r == (old(self).merges().len() < old(self).spec_max_concurrent()),
            r ==> final(self).merges() == old(self).merges().insert(shard_id, final(self).merges()[shard_id])
                && final(self).merges()[shard_id].is_fresh(),
            !r ==> final(self).merges() == old(self).merges(),
            final(self).merges().dom().finite(),
            r ==> final(self).merges().len() == if old(self).merges().contains_key(shard_id) {
                old(self).merges().len()
            } else {
                old(self).merges().len() + 1
            },
            final(self).spec_enabled() == old(self).spec_enabled(),
            final(self).spec_max_concurrent() == old(self).spec_max_concurrent(),
    {
        proof { vstd::std_specs::hash::axiom_hashmap_view_finite_dom(self.in_progress); }
        if !self.can_start_merge() {
            return false;
        }
        self.in_progress.insert(shard_id, MergeResult::new());
        proof { vstd::std_specs::hash::axiom_hashmap_view_finite_dom(self.in_progress); }
        true
    }

    /// Takes the shard's merge out of the set in progress and returns it.
    pub fn complete_merge(&mut self, shard_id: u64) -> (r: Option<MergeResult>)
        ensures
            r == if old(self).merges().contains_key(shard_id) { Some(old(self).merges()[shard_id]) } else { None },
            final(self).merges() == old(self).merges().remove(shard_id),
            final(self).spec_enabled() == old(self).spec_enabled(),
            final(self).spec_max_concurrent() == old(self).spec_max_concurrent(),
    {
        self.in_progress.remove(&shard_id)
    }

    /// Drops the shard's merge; whether there was one.
    pub fn cancel_merge(&mut self, shard_id: u64) -> (r: bool)
        ensures
            r == old(self).merges().contains_key(shard_id),
            final(self).merges() == old(self).merges().remove(shard_id),
            final(self).spec_enabled() == old(self).spec_enabled(),
            final(self).spec_max_concurrent() == old(self).spec_max_concurrent(),
    {
        self.in_progress.remove(&shard_id).is_some()
    }

    /// The number of merges in progress.
    pub fn in_progress_count(&self) -> (r: usize)
        ensures
            r == self.merges().len(),
            self.merges().dom().finite(),
    {
        proof { vstd::std_specs::hash::axiom_hashmap_view_finite_dom(self.in_progress); }
        self.in_progress.len()
    }

    /// The shard's merge in progress, if any.
    pub fn get_merge_status(&self, shard_id: u64) -> (r: Option<&MergeResult>)
        ensures
            match r {
                Some(m) => self.merges().contains_key(shard_id) && *m == self.merges()[shard_id],
                None => !self.merges().contains_key(shard_id),
            },
    {
        self.in_progress.get(&shard_id)
    }
}

/// Merge planning drops no file but possibly the last one, and repeats
/// none: the runs, joined in order, are the time-ordered list itself or
/// the list without its last file; each run holds between one file and
/// the limit.
pub proof fn law_merge_runs_cover(s: Seq<FileMetaView>, max: nat)
    requires
        max > 0,
    ensures
        merge_runs(s, max).flatten() == s
            || (s.len() > 0 && merge_runs(s, max).flatten() == s.drop_last()),
        forall|i: int| 0 <= i < merge_runs(s, max).len() ==> 1 <= (#[trigger] merge_runs(s, max)[i]).len() <= max,
    decreases s.len(),
{
    if s.len() < 2 {
        assert(merge_runs(s, max).flatten() =~= Seq::<FileMetaView>::empty());
        if s.len() == 1 {
            assert(s.drop_last() =~= Seq::<FileMetaView>::empty());
        } else {
            assert(s =~= Seq::<FileMetaView>::empty());
        }
    } else {
        let b: int = if max < s.len() { max as int } else { s.len() as int };
        let head = s.take(b);
        let tail = s.skip(b);
        law_merge_runs_cover(tail, max);
        vstd::seq_lib::lemma_flatten_concat(seq![head], merge_runs(tail, max));
        seq![head].lemma_flatten_one_element();
        let rest = merge_runs(tail, max).flatten();
        assert(merge_runs(s, max) == seq![head] + merge_runs(tail, max));
        assert(merge_runs(s, max).flatten() == head + rest);
        if rest == tail {
            assert(head + tail =~= s);
        } else {
            assert(head + tail.drop_last() =~= s.drop_last());
        }
        assert forall|i: int| 0 <= i < merge_runs(s, max).len() implies 1 <= (#[trigger] merge_runs(s, max)[i]).len() <= max by {
            if i > 0 {
                assert(merge_runs(s, max)[i] == merge_runs(tail, max)[i - 1]);
            }
        }
    }
}

/// A merge that was started can be completed once, and completing it
/// leaves the other shards' merges as they were before the start.
pub proof fn law_start_then_complete(before: Map<u64, MergeResult>, shard_id: u64, record: MergeResult)
    requires
        !before.contains_key(shard_id),
    ensures
        before.insert(shard_id, record).contains_key(shard_id),
        before.insert(shard_id, record).remove(shard_id) == before,
{
    assert(before.insert(shard_id, record).remove(shard_id) =~= before);
}

} // verus!
