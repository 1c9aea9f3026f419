//! Compaction planning: when to compact, which files go together, at what
//! priority, and the bookkeeping of running compactions.

use vstd::prelude::*;
use std::time::Duration;
use crate::config::CompactionConfig;
use crate::tssp::{FileMeta, FileMetaView, FileOrder, file_views, duplicate_files, sort_files, stable_sort};
use crate::clock::{secs_duration, duration_from_secs};

verus! {

/// How deep a set of files sits in the compaction hierarchy.
#[derive(Debug, Clone, Copy, PartialEq, Eq, Structural)]
pub enum CompactionLevel {
    Level0,
    Level1,
    Level2,
    Level3,
}

/// The level that a number of files calls for.
pub open spec fn level_for(count: nat) -> CompactionLevel {
    if count == 0 {
        CompactionLevel::Level0
    } else if count <= 3 {
        CompactionLevel::Level1
    } else if count <= 10 {
        CompactionLevel::Level2
    } else {
        CompactionLevel::Level3
    }
}

impl CompactionLevel {
    /// The level for a number of files: none, up to three, up to ten, more.
    pub fn from_file_count(count: usize) -> (r: Self)
        ensures
            r == level_for(count as nat),
    {
        if count == 0 {
            CompactionLevel::Level0
        } else if count <= 3 {
            CompactionLevel::Level1
        } else if count <= 10 {
            CompactionLevel::Level2
        } else {
            CompactionLevel::Level3
        }
    }
}

/// Options of one compaction run.
#[derive(Debug, Clone)]
pub struct CompactionOptions {
    pub max_file_size: u64,
    pub max_compact_files: usize,
    pub priority: CompactionPriority,
    pub force: bool,
}

impl Default for CompactionOptions {
    fn default() -> (r: Self)
        ensures
            r.max_file_size == 256 * 1024 * 1024,
            r.max_compact_files == 10,
            r.priority == CompactionPriority::Normal,
            !r.force,
    {
        CompactionOptions {
            max_file_size: 256 * 1024 * 1024,
            max_compact_files: 10,
            priority: CompactionPriority::Normal,
            force: false,
        }
    }
}

/// Urgency of a compaction, from lowest to highest.
#[derive(Debug, Clone, Copy, PartialEq, Eq, PartialOrd, Ord, Structural)]
pub enum CompactionPriority {
    Low,
    Normal,
    High,
    Critical,
}

/// The sum of the sizes of a list of files.
pub open spec fn sum_sizes(s: Seq<FileMetaView>) -> nat
    decreases s.len(),
{
    if s.len() == 0 { 0 } else { (sum_sizes(s.drop_last()) + s.last().size) as nat }
}

/// The least minimum time of a list of files, or zero when it is empty.
pub open spec fn min_time_of(s: Seq<FileMetaView>) -> i64
    decreases s.len(),
{
    if s.len() == 0 {
        0
    } else if s.len() == 1 {
        s[0].min_time
    } else {
        let m = min_time_of(s.drop_last());
        if s.last().min_time < m { s.last().min_time } else { m }
    }
}

/// The greatest maximum time of a list of files, or zero when it is empty.
pub open spec fn max_time_of(s: Seq<FileMetaView>) -> i64
    decreases s.len(),
{
    if s.len() == 0 {
        0
    } else if s.len() == 1 {
        s[0].max_time
    } else {
        let m = max_time_of(s.drop_last());
        if s.last().max_time > m { s.last().max_time } else { m }
    }
}

proof fn lemma_sum_sizes_prefix(s: Seq<FileMetaView>, i: int)
    requires
        0 <= i <= s.len(),
    ensures
        sum_sizes(s.take(i)) <= sum_sizes(s),
    decreases s.len() - i,
{
    if i < s.len() {
        lemma_sum_sizes_prefix(s, i + 1);
        assert(s.take(i + 1).drop_last() =~= s.take(i));
    } else {
        assert(s.take(i) =~= s);
    }
}

/// The summed size of a list of files.
pub(crate) fn total_size_of(files: &[FileMeta]) -> (r: u64)
    requires
        sum_sizes(file_views(files@)) <= u64::MAX,
    ensures
        r == sum_sizes(file_views(files@)),
{
    let ghost v = file_views(files@);
    let mut total: u64 = 0;
    let mut i: usize = 0;
    while i < files.len()
        invariant
            v == file_views(files@),
            sum_sizes(v) <= u64::MAX,
            i <= v.len(),
            total == sum_sizes(v.take(i as int)),
        decreases v.len() - i,
    {
        proof {
            assert(v.take(i + 1).drop_last() =~= v.take(i as int));
            lemma_sum_sizes_prefix(v, i + 1);
        }
        total = total + files[i].size;
        i = i + 1;
    }
    proof { assert(v.take(v.len() as int) =~= v); }
    total
}

/// The least minimum time and the greatest maximum time of a list of
/// files, both zero when it is empty.
pub(crate) fn time_span_of(files: &[FileMeta]) -> (r: (i64, i64))
    ensures
        r == (min_time_of(file_views(files@)), max_time_of(file_views(files@))),
{
    let ghost v = file_views(files@);
    let mut lo: i64 = 0;
    let mut hi: i64 = 0;
    let mut i: usize = 0;
    while i < files.len()
        invariant
            v == file_views(files@),
            i <= v.len(),
            lo == min_time_of(v.take(i as int)),
            hi == max_time_of(v.take(i as int)),
        decreases v.len() - i,
    {
        proof {
            assert(v.take(i + 1).drop_last() =~= v.take(i as int));
        }
        let f = &files[i];
        if i == 0 {
            lo = f.min_time;
            hi = f.max_time;
        } else {
            if f.min_time < lo { lo = f.min_time; }
            if f.max_time > hi { hi = f.max_time; }
        }
        i = i + 1;
    }
    proof { assert(v.take(v.len() as int) =~= v); }
    (lo, hi)
}

/// Files grouped the way the planner groups a list: a group is closed
/// once it holds `max` files (so every group is closed at once when `max`
/// is zero), and the last group is kept when it is not empty.
pub open spec fn group_step(state: (Seq<Seq<FileMetaView>>, Seq<FileMetaView>), max: nat, f: FileMetaView)
    -> (Seq<Seq<FileMetaView>>, Seq<FileMetaView>) {
    if state.1.len() >= max {
        (state.0.push(state.1), seq![f])
    } else {
        (state.0, state.1.push(f))
    }
}

/// The grouping state after the first files of a list.
pub open spec fn group_prefix(s: Seq<FileMetaView>, max: nat) -> (Seq<Seq<FileMetaView>>, Seq<FileMetaView>)
    decreases s.len(),
{
    if s.len() == 0 {
        (Seq::empty(), Seq::empty())
    } else {
        group_step(group_prefix(s.drop_last(), max), max, s.last())
    }
}

/// The groups of a list.
pub open spec fn groups(s: Seq<FileMetaView>, max: nat) -> Seq<Seq<FileMetaView>> {
    let st = group_prefix(s, max);
    if st.1.len() > 0 { st.0.push(st.1) } else { st.0 }
}

/// A set of files chosen to be compacted together.
pub struct CompactionCandidate {
    pub files: Vec<FileMeta>,
    pub total_size: u64,
    pub time_range: (i64, i64),
    pub level: CompactionLevel,
    pub priority: CompactionPriority,
}

impl CompactionCandidate {
    /// Whether the size, time span and level are those of the files.
    pub open spec fn is_summary(&self) -> bool {
        &&& self.total_size == sum_sizes(file_views(self.files@))
        &&& self.time_range == (min_time_of(file_views(self.files@)), max_time_of(file_views(self.files@)))
        &&& self.level == level_for(self.files@.len())
    }

    /// A candidate of the given files at normal priority, with their total
    /// size, their time span and the level their number calls for.
    pub fn new(files: Vec<FileMeta>) -> (r: Self)
        requires
            sum_sizes(file_views(files@)) <= u64::MAX,
        ensures
            r.files == files,
            r.total_size == sum_sizes(file_views(files@)),
            r.time_range == (min_time_of(file_views(files@)), max_time_of(file_views(files@))),
            r.level == level_for(files@.len()),
            r.priority == CompactionPriority::Normal,
    {
        let total_size = total_size_of(files.as_slice());
        let (lo, hi) = time_span_of(files.as_slice());
        let level = CompactionLevel::from_file_count(files.len());
        CompactionCandidate {
            files,
            total_size,
            time_range: (lo, hi),
            level,
            priority: CompactionPriority::Normal,
        }
    }

    /// The same candidate at another priority.
    pub fn with_priority(self, priority: CompactionPriority) -> (r: Self)
        ensures
            r.files == self.files,
            r.total_size == self.total_size,
            r.time_range == self.time_range,
            r.level == self.level,
            r.priority == priority,
    {
        CompactionCandidate { priority, ..self }
    }

    /// The number of files.
    pub fn file_count(&self) -> (r: usize)
        ensures
            r == self.files@.len(),
    {
        self.files.len()
    }

    /// Whether the candidate has no files.
    pub fn is_empty(&self) -> (r: bool)
        ensures
            r == (self.files@.len() == 0),
    {
        self.files.len() == 0
    }

    /// Whether one of the files has the given id.
    pub fn contains_file(&self, file_id: u64) -> (r: bool)
        ensures
            r == exists|i: int| 0 <= i < self.files@.len() && self.files@[i].file_id == file_id,
    {
        let mut i: usize = 0;
        while i < self.files.len()
            invariant
                i <= self.files@.len(),
                forall|j: int| 0 <= j < i ==> self.files@[j].file_id != file_id,
            decreases self.files@.len() - i,
        {
            if self.files[i].file_id == file_id {
                return true;
            }
            i = i + 1;
        }
        false
    }

    /// The length of the overlap of the two time ranges and the length of
    /// the shorter range, or `None` when the ranges do not overlap or the
    /// shorter one is empty. Their quotient is the overlap ratio.
    pub fn overlap_extent(&self, other: &CompactionCandidate) -> (r: Option<(i64, i64)>)
        requires
            i64::MIN <= self.time_range.1 - self.time_range.0 <= i64::MAX,
            i64::MIN <= other.time_range.1 - other.time_range.0 <= i64::MAX,
        ensures
            ({
                let lo = if self.time_range.0 > other.time_range.0 { self.time_range.0 } else { other.time_range.0 };
                let hi = if self.time_range.1 < other.time_range.1 { self.time_range.1 } else { other.time_range.1 };
                let a = self.time_range.1 - self.time_range.0;
                let b = other.time_range.1 - other.time_range.0;
                let m = if a < b { a } else { b };
                if lo >= hi || m == 0 {
                    r is None
                } else {
                    r == Some(((hi - lo) as i64, m as i64))
                }
            }),
    {
        let lo = if self.time_range.0 > other.time_range.0 { self.time_range.0 } else { other.time_range.0 };
        let hi = if self.time_range.1 < other.time_range.1 { self.time_range.1 } else { other.time_range.1 };
        if lo >= hi {
            return None;
        }
        let a = self.time_range.1 - self.time_range.0;
        let b = other.time_range.1 - other.time_range.0;
        let m = if a < b { a } else { b };
        if m == 0 {
            return None;
        }
        Some((hi - lo, m))
    }
}

/// Manages when and how much compaction runs.
pub struct CompactionManager {
    config: CompactionConfig,
    active_compactions: usize,
    last_compaction_time: Option<i64>,
}

impl CompactionManager {
    /// The configuration.
    pub closed spec fn spec_config(&self) -> CompactionConfig {
        self.config
    }

    /// The number of compactions running.
    pub closed spec fn active(&self) -> usize {
        self.active_compactions
    }

    /// The recorded time of the last compaction.
    pub closed spec fn last_time(&self) -> Option<i64> {
        self.last_compaction_time
    }

    /// A manager with nothing running and no compaction recorded.
    pub fn new(config: CompactionConfig) -> (r: Self)
        ensures
            r.spec_config() == config,
            r.active() == 0,
            r.last_time() is None,
    {
        CompactionManager { config, active_compactions: 0, last_compaction_time: None }
    }

    /// Compaction is due when it is enabled and there are at least three files.
    pub fn needs_compaction(&self, file_count: usize) -> (r: bool)
        ensures
            r == (self.spec_config().enabled && file_count >= 3),
    {
        if !self.config.enabled {
            return false;
        }
        file_count >= 3
    }

    /// The configuration.
    pub fn get_config(&self) -> (r: &CompactionConfig)
        ensures
            *r == self.spec_config(),
    {
        &self.config
    }

    /// The level a number of files calls for.
    pub fn get_level(&self, file_count: usize) -> (r: CompactionLevel)
        ensures
            r == level_for(file_count as nat),
    {
        CompactionLevel::from_file_count(file_count)
    }

    /// Whether every compaction slot is taken.
    pub fn is_compaction_running(&self) -> (r: bool)
        ensures
            r == (self.active() >= self.spec_config().max_concurrent),
    {
        self.active_compactions >= self.config.max_concurrent
    }

    /// Takes a compaction slot; false when every slot is taken.
    pub fn start_compaction(&mut self) -> (r: bool)
        ensures
            r == (old(self).active() < old(self).spec_config().max_concurrent),
            final(self).active() == if r { old(self).active() + 1 } else { old(self).active() as int },
            final(self).spec_config() == old(self).spec_config(),
            final(self).last_time() == old(self).last_time(),
    {
        if self.is_compaction_running() {
            return false;
        }
        self.active_compactions = self.active_compactions + 1;
        true
    }

    /// Gives a compaction slot back, if one is taken.
    pub fn end_compaction(&mut self)
        ensures
            final(self).active() == if old(self).active() > 0 { old(self).active() - 1 } else { 0 },
            final(self).spec_config() == old(self).spec_config(),
            final(self).last_time() == old(self).last_time(),
    {
        if self.active_compactions > 0 {
            self.active_compactions = self.active_compactions - 1;
        }
    }

    /// The number of compactions running.
    pub fn get_active_compaction_count(&self) -> (r: usize)
        ensures
            r == self.active(),
    {
        self.active_compactions
    }

    /// The recorded time of the last compaction.
    pub fn get_last_compaction_time(&self) -> (r: Option<i64>)
        ensures
            r == self.last_time(),
    {
        self.last_compaction_time
    }

    /// Records the time of the last compaction.
    pub fn set_last_compaction_time(&mut self, time: i64)
        ensures
            final(self).last_time() == Some(time),
            final(self).active() == old(self).active(),
            final(self).spec_config() == old(self).spec_config(),
    {
        self.last_compaction_time = Some(time);
    }

    /// Groups the files into candidates: largest first (older first among
    /// equal sizes), cut into groups of `max_compact_files`.
    pub fn select_compaction_candidates(&self, files: &[FileMeta], options: &CompactionOptions) -> (r: Vec<CompactionCandidate>)
        requires
            sum_sizes(file_views(files@)) <= u64::MAX,
        ensures
            r@.len() == groups(stable_sort(FileOrder::LargestFirst, file_views(files@)), options.max_compact_files as nat).len(),
            forall|i: int| 0 <= i < r@.len() ==> file_views(#[trigger] r@[i].files@)
                == groups(stable_sort(FileOrder::LargestFirst, file_views(files@)), options.max_compact_files as nat)[i],
            forall|i: int| 0 <= i < r@.len() ==> (#[trigger] r@[i]).is_summary() && r@[i].priority == CompactionPriority::Normal,
    {
        let ghost sorted_v = stable_sort(FileOrder::LargestFirst, file_views(files@));
        let ghost max = options.max_compact_files as nat;
        if files.len() == 0 {
            proof { assert(groups(sorted_v, max) =~= Seq::<Seq<FileMetaView>>::empty()); }
            return Vec::new();
        }
        let sorted = sort_files(FileOrder::LargestFirst, duplicate_files(files));
        proof {
            crate::tssp::law_stable_sort_is_ordered_permutation(FileOrder::LargestFirst, file_views(files@));
            lemma_sum_sizes_multiset(file_views(files@), sorted_v);
        }
        let mut rest = sorted;
        let n = rest.len();
        let mut candidates: Vec<CompactionCandidate> = Vec::new();
        let mut batch: Vec<FileMeta> = Vec::new();
        let mut k: usize = 0;
        while k < n
            invariant
                n == sorted_v.len(),
                sum_sizes(sorted_v) <= u64::MAX,
                k <= n,
                rest@.len() == n - k,
                forall|j: int| 0 <= j < rest@.len() ==> #[trigger] rest@[j]@ == sorted_v[k + j],
                max == options.max_compact_files,
                candidates@.len() == group_prefix(sorted_v.take(k as int), max).0.len(),
                forall|i: int| 0 <= i < candidates@.len() ==> file_views(#[trigger] candidates@[i].files@)
                    == group_prefix(sorted_v.take(k as int), max).0[i],
                forall|i: int| 0 <= i < candidates@.len() ==> (#[trigger] candidates@[i]).is_summary()
                    && candidates@[i].priority == CompactionPriority::Normal,
                file_views(batch@) == group_prefix(sorted_v.take(k as int), max).1,
                group_prefix(sorted_v.take(k as int), max).1.is_suffix_of(sorted_v.take(k as int)),
            decreases n - k,
        {
            let f = rest.remove(0);
            proof {
                assert(sorted_v.take(k + 1).drop_last() =~= sorted_v.take(k as int));
                assert(sorted_v.take(k + 1).last() == f@);
            }
            if batch.len() >= options.max_compact_files {
                let mut closed: Vec<FileMeta> = Vec::new();
                std::mem::swap(&mut closed, &mut batch);
                proof { lemma_suffix_sum(sorted_v, k as int, file_views(closed@)); }
                candidates.push(CompactionCandidate::new(closed));
                batch.push(f);
                proof {
                    assert(file_views(batch@) =~= seq![f@]);
                    assert(seq![f@].is_suffix_of(sorted_v.take(k + 1)));
                }
            } else {
                let ghost b0 = file_views(batch@);
                batch.push(f);
                proof {
                    assert(file_views(batch@) =~= b0.push(f@));
                    assert(b0.push(f@).is_suffix_of(sorted_v.take(k + 1))) by {
                        assert(b0 =~= sorted_v.take(k as int).subrange(k - b0.len(), k as int));
                        assert(b0.push(f@) =~= sorted_v.take(k + 1).subrange(k + 1 - b0.push(f@).len(), k + 1));
                    }
                }
            }
            k = k + 1;
        }
        proof { assert(sorted_v.take(n as int) =~= sorted_v); }
        if batch.len() > 0 {
            proof { lemma_suffix_sum(sorted_v, n as int, file_views(batch@)); }
            candidates.push(CompactionCandidate::new(batch));
        }
        candidates
    }

    /// The summed size of the candidates.
    pub fn calculate_compaction_output_size(&self, candidates: &[CompactionCandidate]) -> (r: u64)
        requires
            candidate_sizes(candidates@) <= u64::MAX,
        ensures
            r == candidate_sizes(candidates@),
    {
        let mut total: u64 = 0;
        let mut i: usize = 0;
        while i < candidates.len()
            invariant
                i <= candidates@.len(),
                candidate_sizes(candidates@) <= u64::MAX,
                total == candidate_sizes(candidates@.take(i as int)),
            decreases candidates@.len() - i,
        {
            proof {
                assert(candidates@.take(i + 1).drop_last() =~= candidates@.take(i as int));
                lemma_candidate_sizes_prefix(candidates@, i + 1);
            }
            total = total + candidates[i].total_size;
            i = i + 1;
        }
        proof { assert(candidates@.take(candidates@.len() as int) =~= candidates@); }
        total
    }

    /// A file is old enough to compact when its maximum time, read as an
    /// unsigned number of seconds, is at least `max_age_hours` hours.
    pub fn should_compact_file(&self, file: &FileMeta, max_age_hours: u64) -> (r: bool)
        ensures
            r == ((file.max_time as u64) / 3600 >= max_age_hours),
    {
        let file_age_hours = file.max_time as u64 / 3600;
        file_age_hours >= max_age_hours
    }

    /// Critical from twenty files, high from ten (or from five when more
    /// than a gibibyte), normal otherwise.
    pub fn get_compaction_priority(&self, file_count: usize, total_size: u64) -> (r: CompactionPriority)
        ensures
            r == if file_count >= 20 {
                CompactionPriority::Critical
            } else if file_count >= 10 {
                CompactionPriority::High
            } else if file_count >= 5 && total_size > 1024 * 1024 * 1024 {
                CompactionPriority::High
            } else {
                CompactionPriority::Normal
            },
    {
        if file_count >= 20 {
            CompactionPriority::Critical
        } else if file_count >= 10 {
            CompactionPriority::High
        } else if file_count >= 5 && total_size > 1024 * 1024 * 1024 {
            CompactionPriority::High
        } else {
            CompactionPriority::Normal
        }
    }

    /// The time a compaction of this many bytes takes at 50 MiB per second,
    /// in whole seconds.
    pub fn estimate_compaction_time(&self, total_size: u64) -> (r: Duration)
        ensures
            r == secs_duration(total_size / 52428800u64),
    {
        let throughput: u64 = 50 * 1024 * 1024;
        duration_from_secs(total_size / throughput)
    }
}

/// The summed sizes of a list of candidates.
pub open spec fn candidate_sizes(s: Seq<CompactionCandidate>) -> nat
    decreases s.len(),
{
    if s.len() == 0 { 0 } else { (candidate_sizes(s.drop_last()) + s.last().total_size) as nat }
}

proof fn lemma_candidate_sizes_prefix(s: Seq<CompactionCandidate>, i: int)
    requires
        0 <= i <= s.len(),
    ensures
        candidate_sizes(s.take(i)) <= candidate_sizes(s),
    decreases s.len() - i,
{
    if i < s.len() {
        lemma_candidate_sizes_prefix(s, i + 1);
        assert(s.take(i + 1).drop_last() =~= s.take(i));
    } else {
        assert(s.take(i) =~= s);
    }
}

proof fn lemma_sum_sizes_append(a: Seq<FileMetaView>, b: Seq<FileMetaView>)
    ensures
        sum_sizes(a + b) == sum_sizes(a) + sum_sizes(b),
    decreases b.len(),
{
    if b.len() == 0 {
        assert(a + b =~= a);
    } else {
        lemma_sum_sizes_append(a, b.drop_last());
        assert((a + b).drop_last() =~= a + b.drop_last());
    }
}

proof fn lemma_suffix_sum(s: Seq<FileMetaView>, k: int, b: Seq<FileMetaView>)
    requires
        0 <= k <= s.len(),
        b.is_suffix_of(s.take(k)),
    ensures
        sum_sizes(b) <= sum_sizes(s),
{
    let t = s.take(k);
    let pre = t.subrange(0, t.len() - b.len());
    assert(t =~= pre + b);
    lemma_sum_sizes_append(pre, b);
    lemma_sum_sizes_prefix(s, k);
}

proof fn lemma_sum_sizes_multiset(a: Seq<FileMetaView>, b: Seq<FileMetaView>)
    requires
        a.to_multiset() == b.to_multiset(),
    ensures
        sum_sizes(a) == sum_sizes(b),
    decreases a.len(),
{
    broadcast use vstd::seq_lib::group_to_multiset_ensures;
    if a.len() == 0 {
        assert(b.to_multiset().len() == 0);
        assert(b.len() == 0);
    } else {
        let x = a.last();
        assert(a =~= a.drop_last().push(x));
        assert(b.to_multiset().count(x) > 0);
        assert(b.contains(x));
        let i = choose|i: int| 0 <= i < b.len() && b[i] == x;
        let b2 = b.remove(i);
        assert(b =~= b.subrange(0, i) + seq![x] + b.subrange(i + 1, b.len() as int));
        assert(b2 =~= b.subrange(0, i) + b.subrange(i + 1, b.len() as int));
        vstd::seq_lib::lemma_multiset_commutative(b.subrange(0, i) + seq![x], b.subrange(i + 1, b.len() as int));
        vstd::seq_lib::lemma_multiset_commutative(b.subrange(0, i), seq![x]);
        vstd::seq_lib::lemma_multiset_commutative(b.subrange(0, i), b.subrange(i + 1, b.len() as int));
        assert(b2.to_multiset() =~= b.to_multiset().remove(x));
        assert(a.drop_last().to_multiset() =~= a.to_multiset().remove(x));
        lemma_sum_sizes_multiset(a.drop_last(), b2);
        lemma_sum_sizes_append(b.subrange(0, i) + seq![x], b.subrange(i + 1, b.len() as int));
        lemma_sum_sizes_append(b.subrange(0, i), seq![x]);
        lemma_sum_sizes_append(b.subrange(0, i), b.subrange(i + 1, b.len() as int));
        assert(sum_sizes(seq![x]) == x.size) by {
            assert(seq![x].drop_last() =~= Seq::<FileMetaView>::empty());
            assert(sum_sizes(Seq::<FileMetaView>::empty()) == 0);
        }
    }
}

/// What a compaction run produced.
pub struct CompactionResult {
    pub original_files: Vec<FileMeta>,
    pub compacted_files: Vec<FileMeta>,
    pub rows_written: usize,
    pub bytes_written: u64,
    pub duration_ms: u64,
}

/// The sizes of a list of files, each cast to `i64`, summed.
pub open spec fn signed_sizes(s: Seq<FileMetaView>) -> int
    decreases s.len(),
{
    if s.len() == 0 { 0 } else { signed_sizes(s.drop_last()) + (s.last().size as i64) }
}

/// Whether every partial sum of the signed sizes fits in `i64`.
pub open spec fn signed_sizes_fit(s: Seq<FileMetaView>) -> bool {
    forall|i: int| 0 <= i <= s.len() ==> i64::MIN <= #[trigger] signed_sizes(s.take(i)) <= i64::MAX
}

fn signed_total(files: &Vec<FileMeta>) -> (r: i64)
    requires
        signed_sizes_fit(file_views(files@)),
    ensures
        r == signed_sizes(file_views(files@)),
{
    let ghost v = file_views(files@);
    let mut total: i64 = 0;
    let mut i: usize = 0;
    while i < files.len()
        invariant
            v == file_views(files@),
            signed_sizes_fit(v),
            i <= v.len(),
            total == signed_sizes(v.take(i as int)),
        decreases v.len() - i,
    {
        proof {
            assert(v.take(i + 1).drop_last() =~= v.take(i as int));
            assert(i64::MIN <= signed_sizes(v.take(i + 1)) <= i64::MAX);
        }
        total = total + files[i].size as i64;
        i = i + 1;
    }
    proof { assert(v.take(v.len() as int) =~= v); }
    total
}

fn unsigned_total(files: &Vec<FileMeta>) -> (r: u64)
    requires
        sum_sizes(file_views(files@)) <= u64::MAX,
    ensures
        r == sum_sizes(file_views(files@)),
{
    total_size_of(files.as_slice())
}

impl CompactionResult {
    /// An empty result.
    pub fn new() -> (r: Self)
        ensures
            r.original_files@.len() == 0,
            r.compacted_files@.len() == 0,
            r.rows_written == 0,
            r.bytes_written == 0,
            r.duration_ms == 0,
    {
        CompactionResult {
            original_files: Vec::new(),
            compacted_files: Vec::new(),
            rows_written: 0,
            bytes_written: 0,
            duration_ms: 0,
        }
    }

    /// The same result with the given input files.
    pub fn with_original_files(self, files: Vec<FileMeta>) -> (r: Self)
        ensures
            r == (CompactionResult { original_files: files, ..self }),
    {
        CompactionResult { original_files: files, ..self }
    }

    /// The same result with the given output files.
    pub fn with_compacted_files(self, files: Vec<FileMeta>) -> (r: Self)
        ensures
            r == (CompactionResult { compacted_files: files, ..self }),
    {
        CompactionResult { compacted_files: files, ..self }
    }

    /// The same result with the given row count.
    pub fn with_rows_written(self, rows: usize) -> (r: Self)
        ensures
            r == (CompactionResult { rows_written: rows, ..self }),
    {
        CompactionResult { rows_written: rows, ..self }
    }

    /// The same result with the given byte count.
    pub fn with_bytes_written(self, bytes: u64) -> (r: Self)
        ensures
            r == (CompactionResult { bytes_written: bytes, ..self }),
    {
        CompactionResult { bytes_written: bytes, ..self }
    }

    /// The same result with the given duration.
    pub fn with_duration_ms(self, ms: u64) -> (r: Self)
        ensures
            r == (CompactionResult { duration_ms: ms, ..self }),
    {
        CompactionResult { duration_ms: ms, ..self }
    }

    /// The summed size of the input files; its ratio to the bytes written is
    /// the compression ratio.
    pub fn original_size(&self) -> (r: u64)
        requires
            sum_sizes(file_views(self.original_files@)) <= u64::MAX,
        ensures
            r == sum_sizes(file_views(self.original_files@)),
    {
        unsigned_total(&self.original_files)
    }

    /// Bytes saved: the input sizes minus the output sizes, each size cast
    /// to `i64`.
    pub fn space_saved(&self) -> (r: i64)
        requires
            signed_sizes_fit(file_views(self.original_files@)),
            signed_sizes_fit(file_views(self.compacted_files@)),
            i64::MIN <= signed_sizes(file_views(self.original_files@)) - signed_sizes(file_views(self.compacted_files@)) <= i64::MAX,
        ensures
            r == signed_sizes(file_views(self.original_files@)) - signed_sizes(file_views(self.compacted_files@)),
    {
        proof {
            assert(file_views(self.original_files@).take(file_views(self.original_files@).len() as int) =~= file_views(self.original_files@));
            assert(file_views(self.compacted_files@).take(file_views(self.compacted_files@).len() as int) =~= file_views(self.compacted_files@));
        }
        let original_size = signed_total(&self.original_files);
        let compacted_size = signed_total(&self.compacted_files);
        original_size - compacted_size
    }
}

impl Default for CompactionResult {
    fn default() -> (r: Self)
        ensures
            r.original_files@.len() == 0,
            r.compacted_files@.len() == 0,
            r.rows_written == 0,
            r.bytes_written == 0,
            r.duration_ms == 0,
    {
        Self::new()
    }
}

proof fn lemma_group_prefix(s: Seq<FileMetaView>, max: nat)
    ensures
        group_prefix(s, max).0.flatten() + group_prefix(s, max).1 == s,
        max > 0 ==> forall|i: int| 0 <= i < group_prefix(s, max).0.len() ==> (#[trigger] group_prefix(s, max).0[i]).len() == max,
        max > 0 ==> group_prefix(s, max).1.len() <= max,
        s.len() > 0 ==> group_prefix(s, max).1.len() >= 1,
    decreases s.len(),
{
    broadcast use Seq::lemma_flatten_push;
    if s.len() == 0 {
        assert(group_prefix(s, max).0.flatten() + group_prefix(s, max).1 =~= s);
    } else {
        let init = s.drop_last();
        let x = s.last();
        lemma_group_prefix(init, max);
        let st = group_prefix(init, max);
        assert(s =~= init.push(x));
        if st.1.len() >= max {
            assert(st.0.push(st.1).flatten() == st.0.flatten() + st.1);
            assert(st.0.push(st.1).flatten() + seq![x] =~= (st.0.flatten() + st.1).push(x));
        } else {
            assert(st.0.flatten() + st.1.push(x) =~= (st.0.flatten() + st.1).push(x));
        }
    }
}

/// Candidate selection loses and repeats no file: the groups of the sorted
/// list, joined in order, hold every input file exactly as often as the
/// input does; with a positive limit each group holds between one file and
/// the limit.
pub proof fn law_groups_partition_files(s: Seq<FileMetaView>, max: nat)
    ensures
        groups(stable_sort(FileOrder::LargestFirst, s), max).flatten().to_multiset() == s.to_multiset(),
        max > 0 ==> forall|i: int| 0 <= i < groups(stable_sort(FileOrder::LargestFirst, s), max).len()
            ==> 1 <= (#[trigger] groups(stable_sort(FileOrder::LargestFirst, s), max)[i]).len() <= max,
{
    broadcast use Seq::lemma_flatten_push;
    let t = stable_sort(FileOrder::LargestFirst, s);
    crate::tssp::law_stable_sort_is_ordered_permutation(FileOrder::LargestFirst, s);
    lemma_group_prefix(t, max);
    let st = group_prefix(t, max);
    if st.1.len() > 0 {
        assert(groups(t, max).flatten() == st.0.flatten() + st.1);
    } else {
        assert(st.0.flatten() + st.1 =~= st.0.flatten());
    }
    assert(groups(t, max).flatten() == t);
}

} // verus!
