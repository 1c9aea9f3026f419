//! Snapshots of the engine's files: their manifests, with a checksum of the
//! file list, and the registry that numbers them, finds the latest, checks
//! them and decides which to drop.

use vstd::prelude::*;
use std::collections::hash_map::DefaultHasher;
use std::hash::Hasher;
use vstd::std_specs::hash::DefaultHasherAdditionalSpecFns;
use crate::bloom::{le_bytes, u64_le_bytes};
use crate::error::Error;
use crate::keyed::{keyed, keys_unique, lemma_keyed_absent, lemma_keyed_facts, lemma_keyed_push, lemma_keyed_remove, lemma_keyed_update};
use crate::tssp::{duplicate_files, file_views, FileMeta, FileMetaView};

verus! {

/// A snapshot's number, when it was taken and where its files are.
#[derive(Debug, Clone)]
pub struct SnapshotId {
    pub id: u64,
    pub timestamp: i64,
    pub path: String,
}

impl SnapshotId {
    /// A snapshot identity.
    pub fn new(id: u64, timestamp: i64, path: String) -> (r: Self)
        ensures
            r.id == id,
            r.timestamp == timestamp,
            r.path == path,
    {
        SnapshotId { id, timestamp, path }
    }

    /// How long before `now` the snapshot was taken.
    pub fn age_seconds(&self, now: i64) -> (r: i64)
        requires
            i64::MIN <= now - self.timestamp <= i64::MAX,
        ensures
            r == now - self.timestamp,
    {
        now - self.timestamp
    }
}

/// The bytes that the checksum reads of a file's metadata: its id, its
/// times and its size, little-endian, then its filter's bytes where it has
/// them.
pub open spec fn meta_writes(m: FileMetaView) -> Seq<Seq<u8>> {
    seq![le_bytes(m.file_id), le_bytes(m.min_time as u64), le_bytes(m.max_time as u64), le_bytes(m.size)]
        + match m.bloom_filter_data {
            Some(b) => seq![seq![1u8], b],
            None => seq![seq![0u8]],
        }
}

/// The bytes that the checksum reads of a file list, in order.
pub open spec fn metas_writes(s: Seq<FileMetaView>) -> Seq<Seq<u8>>
    decreases s.len(),
{
    if s.len() == 0 {
        Seq::empty()
    } else {
        metas_writes(s.drop_last()) + meta_writes(s.last())
    }
}

/// The checksum of a file list: the default hasher's digest of its bytes,
/// cut to 32 bits.
pub open spec fn metas_checksum(s: Seq<FileMetaView>) -> u32 {
    DefaultHasher::spec_finish(metas_writes(s)) as u32
}

fn checksum_of(metas: &[FileMeta]) -> (r: u32)
    ensures
        r == metas_checksum(file_views(metas@)),
{
    let mut hasher = DefaultHasher::new();
    let mut i: usize = 0;
    while i < metas.len()
        invariant
            i <= metas@.len(),
            hasher@ == metas_writes(file_views(metas@).take(i as int)),
        decreases metas@.len() - i,
    {
        let m = &metas[i];
        let a = u64_le_bytes(m.file_id);
        let b = u64_le_bytes(m.min_time as u64);
        let c = u64_le_bytes(m.max_time as u64);
        let d = u64_le_bytes(m.size);
        hasher.write(&a);
        hasher.write(&b);
        hasher.write(&c);
        hasher.write(&d);
        match &m.bloom_filter_data {
            Some(v) => {
                let one: [u8; 1] = [1u8];
                hasher.write(&one);
                hasher.write(v.as_slice());
                proof { assert(one@ =~= seq![1u8]); }
            },
            None => {
                let zero: [u8; 1] = [0u8];
                hasher.write(&zero);
                proof { assert(zero@ =~= seq![0u8]); }
            },
        }
        proof {
            let t = file_views(metas@).take(i + 1);
            assert(t.drop_last() =~= file_views(metas@).take(i as int));
            assert(t.last() == m@);
            assert(hasher@ =~= metas_writes(t));
        }
        i = i + 1;
    }
    proof { assert(file_views(metas@).take(metas@.len() as int) =~= file_views(metas@)); }
    hasher.finish() as u32
}

/// What a snapshot holds: its number and time, its files, its counts and
/// the checksum of its files.
#[derive(Debug, Clone)]
pub struct SnapshotManifest {
    pub snapshot_id: u64,
    pub timestamp: i64,
    pub file_metas: Vec<FileMeta>,
    pub series_count: usize,
    pub total_rows: u64,
    pub checksum: u32,
}

impl SnapshotManifest {
    /// A manifest, its checksum computed from its files.
    pub fn new(snapshot_id: u64, timestamp: i64, file_metas: Vec<FileMeta>, series_count: usize, total_rows: u64) -> (r: Self)
        ensures
            r.snapshot_id == snapshot_id,
            r.timestamp == timestamp,
            r.file_metas == file_metas,
            r.series_count == series_count,
            r.total_rows == total_rows,
            r.checksum == metas_checksum(file_views(file_metas@)),
    {
        let checksum = checksum_of(file_metas.as_slice());
        SnapshotManifest { snapshot_id, timestamp, file_metas, series_count, total_rows, checksum }
    }

    /// A copy with the same numbers and files.
    pub fn duplicate(&self) -> (r: Self)
        ensures
            r.snapshot_id == self.snapshot_id,
            r.timestamp == self.timestamp,
            file_views(r.file_metas@) == file_views(self.file_metas@),
            r.series_count == self.series_count,
            r.total_rows == self.total_rows,
            r.checksum == self.checksum,
    {
        SnapshotManifest {
            snapshot_id: self.snapshot_id,
            timestamp: self.timestamp,
            file_metas: duplicate_files(self.file_metas.as_slice()),
            series_count: self.series_count,
            total_rows: self.total_rows,
            checksum: self.checksum,
        }
    }
}

/// A snapshot on disk: where it is and its manifest.
#[derive(Debug, Clone)]
pub struct SnapshotFile {
    pub path: String,
    pub manifest: SnapshotManifest,
}


/// The abstract value of a snapshot on disk.
pub struct SnapshotFileView {
    pub path: Seq<char>,
    pub snapshot_id: u64,
    pub timestamp: i64,
    pub file_metas: Seq<FileMetaView>,
    pub series_count: usize,
    pub total_rows: u64,
    pub checksum: u32,
}

impl View for SnapshotFile {
    type V = SnapshotFileView;

    open spec fn view(&self) -> SnapshotFileView {
        SnapshotFileView {
            path: self.path@,
            snapshot_id: self.manifest.snapshot_id,
            timestamp: self.manifest.timestamp,
            file_metas: file_views(self.manifest.file_metas@),
            series_count: self.manifest.series_count,
            total_rows: self.manifest.total_rows,
            checksum: self.manifest.checksum,
        }
    }
}

impl SnapshotFile {
    /// A copy with the same abstract value.
    pub fn duplicate(&self) -> (r: Self)
        ensures
            r@ == self@,
    {
        SnapshotFile { path: self.path.clone(), manifest: self.manifest.duplicate() }
    }
}

/// The abstract values of snapshots.
pub open spec fn files_view(s: Seq<SnapshotFile>) -> Seq<SnapshotFileView> {
    s.map_values(|f: SnapshotFile| f@)
}

/// The number of a kept snapshot.
pub open spec fn snap_key() -> spec_fn(SnapshotFile) -> u64 {
    |f: SnapshotFile| f.manifest.snapshot_id
}

/// The index of the first snapshot with the least timestamp.
pub open spec fn oldest_index(s: Seq<SnapshotFileView>) -> int
    decreases s.len(),
{
    if s.len() <= 1 {
        0
    } else {
        let i = oldest_index(s.drop_last());
        if s.last().timestamp < s[i].timestamp { s.len() - 1 } else { i }
    }
}

/// The snapshots without their `k` oldest, taken one at a time, the first
/// of equals first.
pub open spec fn drop_oldest(s: Seq<SnapshotFileView>, k: nat) -> Seq<SnapshotFileView>
    decreases k,
{
    if k == 0 || s.len() == 0 {
        s
    } else {
        drop_oldest(s.remove(oldest_index(s)), (k - 1) as nat)
    }
}

/// The snapshots taken at or after a time, in order.
pub open spec fn taken_since(s: Seq<SnapshotFileView>, cutoff: int) -> Seq<SnapshotFileView>
    decreases s.len(),
{
    if s.len() == 0 {
        Seq::empty()
    } else if s.last().timestamp < cutoff {
        taken_since(s.drop_last(), cutoff)
    } else {
        taken_since(s.drop_last(), cutoff).push(s.last())
    }
}

/// The snapshots kept by a cleanup at `now` (seconds): with no more than
/// the limit, all; else those not older than the retention (the cutoff is
/// compared with the snapshots' own timestamps), then, while more than the
/// limit remain, without the oldest.
pub open spec fn kept_after_cleanup(s: Seq<SnapshotFileView>, max: usize, now: i64, retention: i64) -> Seq<SnapshotFileView> {
    if s.len() <= max {
        s
    } else {
        let fresh = taken_since(s, now - retention);
        if fresh.len() <= max { fresh } else { drop_oldest(fresh, (fresh.len() - max) as nat) }
    }
}

proof fn lemma_oldest_index(s: Seq<SnapshotFileView>)
    requires
        s.len() > 0,
    ensures
        0 <= oldest_index(s) < s.len(),
        forall|j: int| 0 <= j < s.len() ==> s[oldest_index(s)].timestamp <= #[trigger] s[j].timestamp,
    decreases s.len(),
{
    if s.len() > 1 {
        lemma_oldest_index(s.drop_last());
        let i = oldest_index(s.drop_last());
        assert forall|j: int| 0 <= j < s.len() implies s[oldest_index(s)].timestamp <= #[trigger] s[j].timestamp by {
            if j < s.len() - 1 {
                assert(s.drop_last()[j] == s[j]);
            }
        }
    }
}


/// The snapshots that the engine keeps, numbered from 1, with a limit on
/// their number and a retention.
pub struct SnapshotService {
    snapshot_dir: String,
    snapshots: Vec<SnapshotFile>,
    max_snapshots: usize,
    retention_seconds: i64,
    next_id: u64,
}

impl SnapshotService {
    #[verifier::type_invariant]
    spec fn numbers_distinct(self) -> bool {
        keys_unique(self.snapshots@, snap_key())
    }

    /// The snapshots, in the order they were registered.
    pub closed spec fn entries(&self) -> Seq<SnapshotFileView> {
        files_view(self.snapshots@)
    }

    /// The number the next snapshot gets.
    pub closed spec fn next_number(&self) -> u64 {
        self.next_id
    }

    /// Where the snapshots are kept.
    pub closed spec fn dir(&self) -> Seq<char> {
        self.snapshot_dir@
    }

    /// The most snapshots kept.
    pub closed spec fn limit(&self) -> usize {
        self.max_snapshots
    }

    /// How long snapshots are kept.
    pub closed spec fn retention(&self) -> i64 {
        self.retention_seconds
    }

    /// A registry with no snapshot, numbering from 1.
    pub fn new(snapshot_dir: String, max_snapshots: usize, retention_seconds: i64) -> (r: Self)
        ensures
            r.entries().len() == 0,
            r.next_number() == 1,
            r.dir() == snapshot_dir@,
            r.limit() == max_snapshots,
            r.retention() == retention_seconds,
    {
        SnapshotService { snapshot_dir, snapshots: Vec::new(), max_snapshots, retention_seconds, next_id: 1 }
    }

    /// Where the snapshots are kept.
    pub fn snapshot_dir(&self) -> (r: &str)
        ensures
            r@ == self.dir(),
    {
        self.snapshot_dir.as_str()
    }

    fn find(&self, snapshot_id: u64) -> (r: Option<usize>)
        ensures
            match r {
                Some(i) => i < self.snapshots@.len() && self.snapshots@[i as int].manifest.snapshot_id == snapshot_id,
                None => forall|j: int| 0 <= j < self.snapshots@.len() ==> snap_key()(self.snapshots@[j]) != snapshot_id,
            },
    {
        let mut i: usize = 0;
        while i < self.snapshots.len()
            invariant
                i <= self.snapshots@.len(),
                forall|j: int| 0 <= j < i ==> snap_key()(self.snapshots@[j]) != snapshot_id,
            decreases self.snapshots@.len() - i,
        {
            if self.snapshots[i].manifest.snapshot_id == snapshot_id {
                return Some(i);
            }
            i = i + 1;
        }
        None
    }

    /// Takes the next number (wrapping past the largest).
    pub fn allocate_id(&mut self) -> (r: u64)
        ensures
            r == old(self).next_number(),
            final(self).next_number() == old(self).next_number().wrapping_add(1),
            final(self).entries() == old(self).entries(),
            final(self).limit() == old(self).limit(),
            final(self).retention() == old(self).retention(),
            final(self).dir() == old(self).dir(),
    {
        proof { use_type_invariant(&*self); }
        let id = self.next_id;
        self.next_id = self.next_id.wrapping_add(1);
        id
    }

    /// Keeps a snapshot, replacing one of its number in place.
    pub fn insert_snapshot(&mut self, file: SnapshotFile)
        ensures
            final(self).entries() == match first_with(old(self).entries(), file.manifest.snapshot_id) {
                Some(i) => old(self).entries().update(i, file@),
                None => old(self).entries().push(file@),
            },
            final(self).next_number() == old(self).next_number(),
            final(self).limit() == old(self).limit(),
            final(self).retention() == old(self).retention(),
            final(self).dir() == old(self).dir(),
    {
        proof { use_type_invariant(&*self); }
        let found = self.find(file.manifest.snapshot_id);
        proof { lemma_first_with(self.snapshots@, file.manifest.snapshot_id, found); }
        let mut v: Vec<SnapshotFile> = Vec::new();
        std::mem::swap(&mut v, &mut self.snapshots);
        let ghost before = v@;
        let ghost fv = file@;
        match found {
            Some(i) => {
                proof { lemma_keyed_update(v@, snap_key(), snap_key(), i as int, file); }
                v.set(i, file);
                proof { assert(files_view(v@) =~= files_view(before).update(i as int, fv)); }
            },
            None => {
                proof {
                    lemma_keyed_absent(v@, snap_key(), snap_key(), file.manifest.snapshot_id);
                    lemma_keyed_push(v@, snap_key(), snap_key(), file);
                }
                v.push(file);
                proof { assert(files_view(v@) =~= files_view(before).push(fv)); }
            },
        }
        self.snapshots = v;
    }

    /// Keeps a snapshot found on disk, and numbers later snapshots past it.
    pub fn register(&mut self, file: SnapshotFile)
        ensures
            final(self).entries() == match first_with(old(self).entries(), file.manifest.snapshot_id) {
                Some(i) => old(self).entries().update(i, file@),
                None => old(self).entries().push(file@),
            },
            final(self).next_number() == if file.manifest.snapshot_id >= old(self).next_number() {
                file.manifest.snapshot_id.wrapping_add(1)
            } else {
                old(self).next_number()
            },
            final(self).limit() == old(self).limit(),
            final(self).retention() == old(self).retention(),
            final(self).dir() == old(self).dir(),
    {
        let id = file.manifest.snapshot_id;
        self.insert_snapshot(file);
        proof { use_type_invariant(&*self); }
        if id >= self.next_id {
            self.next_id = id.wrapping_add(1);
        }
    }

    /// A copy of the snapshot of a number.
    pub fn get_snapshot(&self, snapshot_id: u64) -> (r: Option<SnapshotFile>)
        ensures
            match first_with(self.entries(), snapshot_id) {
                Some(i) => r matches Some(f) && f@ == self.entries()[i],
                None => r is None,
            },
    {
        proof { use_type_invariant(self); }
        let found = self.find(snapshot_id);
        proof { lemma_first_with(self.snapshots@, snapshot_id, found); }
        match found {
            Some(i) => Some(self.snapshots[i].duplicate()),
            None => None,
        }
    }

    /// The number, time and place of each snapshot, in order.
    pub fn list_snapshots(&self) -> (r: Vec<SnapshotId>)
        ensures
            r@.len() == self.entries().len(),
            forall|i: int| 0 <= i < r@.len() ==> (#[trigger] r@[i]).id == self.entries()[i].snapshot_id
                && r@[i].timestamp == self.entries()[i].timestamp && r@[i].path@ == self.entries()[i].path,
    {
        let mut out: Vec<SnapshotId> = Vec::new();
        let mut i: usize = 0;
        while i < self.snapshots.len()
            invariant
                i <= self.snapshots@.len(),
                out@.len() == i,
                forall|j: int| 0 <= j < i ==> (#[trigger] out@[j]).id == self.entries()[j].snapshot_id
                    && out@[j].timestamp == self.entries()[j].timestamp && out@[j].path@ == self.entries()[j].path,
            decreases self.snapshots@.len() - i,
        {
            let f = &self.snapshots[i];
            out.push(SnapshotId::new(f.manifest.snapshot_id, f.manifest.timestamp, f.path.clone()));
            i = i + 1;
        }
        out
    }

    /// Forgets the snapshot of a number; whether there was one.
    pub fn delete_snapshot(&mut self, snapshot_id: u64) -> (r: bool)
        ensures
            r == (first_with(old(self).entries(), snapshot_id) is Some),
            final(self).entries() == match first_with(old(self).entries(), snapshot_id) {
                Some(i) => old(self).entries().remove(i),
                None => old(self).entries(),
            },
            final(self).next_number() == old(self).next_number(),
            final(self).limit() == old(self).limit(),
            final(self).retention() == old(self).retention(),
            final(self).dir() == old(self).dir(),
    {
        proof { use_type_invariant(&*self); }
        let found = self.find(snapshot_id);
        proof { lemma_first_with(self.snapshots@, snapshot_id, found); }
        match found {
            Some(i) => {
                let mut v: Vec<SnapshotFile> = Vec::new();
                std::mem::swap(&mut v, &mut self.snapshots);
                let ghost before = v@;
                proof { lemma_keyed_remove(v@, snap_key(), snap_key(), i as int); }
                v.remove(i);
                proof { assert(files_view(v@) =~= files_view(before).remove(i as int)); }
                self.snapshots = v;
                true
            },
            None => false,
        }
    }

    /// The number of snapshots.
    pub fn snapshot_count(&self) -> (r: usize)
        ensures
            r == self.entries().len(),
    {
        self.snapshots.len()
    }

    /// Whether the files of the snapshot of a number still give its checksum.
    pub fn verify_snapshot(&self, snapshot_id: u64) -> (r: Result<bool, Error>)
        ensures
            match first_with(self.entries(), snapshot_id) {
                Some(i) => r == Ok::<bool, Error>(metas_checksum(self.entries()[i].file_metas) == self.entries()[i].checksum),
                None => r matches Err(Error::Snapshot(m)) && m@ == "snapshot "@ + crate::text::dec_nat(snapshot_id as nat) + " not found"@,
            },
    {
        proof { use_type_invariant(self); }
        let found = self.find(snapshot_id);
        proof { lemma_first_with(self.snapshots@, snapshot_id, found); }
        match found {
            Some(i) => {
                let m = &self.snapshots[i].manifest;
                Ok(checksum_of(m.file_metas.as_slice()) == m.checksum)
            },
            None => {
                let mut msg = "snapshot ".to_owned();
                crate::text::append_u64(&mut msg, snapshot_id);
                crate::text::push_str(&mut msg, " not found");
                Err(Error::Snapshot(msg))
            },
        }
    }

    /// The snapshot taken last: none without snapshots; else one whose
    /// timestamp no other exceeds (the last such in order).
    pub fn get_latest_snapshot(&self) -> (r: Option<SnapshotId>)
        ensures
            self.entries().len() == 0 ==> r is None,
            self.entries().len() > 0 ==> (r matches Some(s) && is_latest(self.entries(), s.id, s.timestamp, s.path@)),
    {
        if self.snapshots.len() == 0 {
            return None;
        }
        let mut best: usize = 0;
        let mut i: usize = 1;
        while i < self.snapshots.len()
            invariant
                1 <= i <= self.snapshots@.len(),
                best < i,
                forall|j: int| 0 <= j < i ==> (#[trigger] self.snapshots@[j]).manifest.timestamp <= self.snapshots@[best as int].manifest.timestamp,
            decreases self.snapshots@.len() - i,
        {
            if self.snapshots[i].manifest.timestamp >= self.snapshots[best].manifest.timestamp {
                best = i;
            }
            i = i + 1;
        }
        let f = &self.snapshots[best];
        let r = SnapshotId::new(f.manifest.snapshot_id, f.manifest.timestamp, f.path.clone());
        proof {
            assert(self.entries()[best as int].snapshot_id == r.id);
            assert forall|j: int| 0 <= j < self.entries().len() implies #[trigger] self.entries()[j].timestamp <= r.timestamp by {
                assert(self.snapshots@[j].manifest.timestamp <= self.snapshots@[best as int].manifest.timestamp);
            }
        }
        Some(r)
    }
}

/// Whether a snapshot of the list has this number, time and place, and no
/// snapshot of the list was taken later.
pub open spec fn is_latest(e: Seq<SnapshotFileView>, id: u64, timestamp: i64, path: Seq<char>) -> bool {
    &&& exists|i: int| 0 <= i < e.len() && #[trigger] e[i].snapshot_id == id && e[i].timestamp == timestamp && e[i].path == path
    &&& forall|j: int| 0 <= j < e.len() ==> #[trigger] e[j].timestamp <= timestamp
}

/// The position of the first snapshot of a number.
pub open spec fn first_with(s: Seq<SnapshotFileView>, snapshot_id: u64) -> Option<int>
    decreases s.len(),
{
    if s.len() == 0 {
        None
    } else {
        match first_with(s.drop_last(), snapshot_id) {
            Some(i) => Some(i),
            None => if s.last().snapshot_id == snapshot_id { Some(s.len() - 1) } else { None },
        }
    }
}

proof fn lemma_first_with(v: Seq<SnapshotFile>, snapshot_id: u64, found: Option<usize>)
    requires
        keys_unique(v, snap_key()),
        match found {
            Some(i) => i < v.len() && v[i as int].manifest.snapshot_id == snapshot_id,
            None => forall|j: int| 0 <= j < v.len() ==> snap_key()(v[j]) != snapshot_id,
        },
    ensures
        match found {
            Some(i) => first_with(files_view(v), snapshot_id) == Some(i as int),
            None => first_with(files_view(v), snapshot_id) is None,
        },
    decreases v.len(),
{
    if v.len() > 0 {
        let w = v.drop_last();
        assert(files_view(w) =~= files_view(v).drop_last());
        assert(keys_unique(w, snap_key())) by {
            assert forall|a: int, b: int| 0 <= a < b < w.len() implies snap_key()(w[a]) != snap_key()(w[b]) by {
                assert(w[a] == v[a] && w[b] == v[b]);
            }
        }
        match found {
            Some(i) => {
                if (i as int) < v.len() - 1 {
                    lemma_first_with(w, snapshot_id, found);
                } else {
                    assert forall|j: int| 0 <= j < w.len() implies snap_key()(w[j]) != snapshot_id by {
                        assert(w[j] == v[j]);
                        assert(snap_key()(v[j]) != snap_key()(v[v.len() - 1]));
                    }
                    lemma_first_with(w, snapshot_id, None);
                }
            },
            None => {
                assert forall|j: int| 0 <= j < w.len() implies snap_key()(w[j]) != snapshot_id by {
                    assert(w[j] == v[j]);
                }
                lemma_first_with(w, snapshot_id, None);
            },
        }
    }
}


/// The numbers of the snapshots taken before a time, in order.
pub open spec fn expired_ids(s: Seq<SnapshotFileView>, cutoff: int) -> Seq<u64>
    decreases s.len(),
{
    if s.len() == 0 {
        Seq::empty()
    } else if s.last().timestamp < cutoff {
        expired_ids(s.drop_last(), cutoff).push(s.last().snapshot_id)
    } else {
        expired_ids(s.drop_last(), cutoff)
    }
}

/// The numbers of the `k` oldest snapshots, in the order they are dropped.
pub open spec fn oldest_ids(s: Seq<SnapshotFileView>, k: nat) -> Seq<u64>
    decreases k,
{
    if k == 0 || s.len() == 0 {
        Seq::empty()
    } else {
        seq![s[oldest_index(s)].snapshot_id] + oldest_ids(s.remove(oldest_index(s)), (k - 1) as nat)
    }
}

/// The numbers of the snapshots that a cleanup at `now` drops, in the
/// order it drops them.
pub open spec fn dropped_by_cleanup(s: Seq<SnapshotFileView>, max: usize, now: i64, retention: i64) -> Seq<u64> {
    if s.len() <= max {
        Seq::empty()
    } else {
        let fresh = taken_since(s, now - retention);
        expired_ids(s, now - retention)
            + if fresh.len() <= max { Seq::empty() } else { oldest_ids(fresh, (fresh.len() - max) as nat) }
    }
}

/// No two snapshots of a list share a number.
pub open spec fn ids_unique(s: Seq<SnapshotFileView>) -> bool {
    forall|i: int, j: int| 0 <= i < j < s.len() ==> s[i].snapshot_id != s[j].snapshot_id
}

proof fn lemma_taken_since(s: Seq<SnapshotFileView>, cutoff: int)
    ensures
        forall|x: SnapshotFileView| taken_since(s, cutoff).contains(x) ==> s.contains(x),
        ids_unique(s) ==> ids_unique(taken_since(s, cutoff)),
    decreases s.len(),
{
    if s.len() > 0 {
        let w = s.drop_last();
        lemma_taken_since(w, cutoff);
        let t = taken_since(w, cutoff);
        assert forall|x: SnapshotFileView| taken_since(s, cutoff).contains(x) implies s.contains(x) by {
            if t.contains(x) {
                assert(w.contains(x));
                let k = choose|k: int| 0 <= k < w.len() && w[k] == x;
                assert(w[k] == s[k]);
            } else {
                assert(s[s.len() - 1] == x);
            }
        }
        if ids_unique(s) {
            assert(ids_unique(w)) by {
                assert forall|i: int, j: int| 0 <= i < j < w.len() implies w[i].snapshot_id != w[j].snapshot_id by {
                    assert(w[i] == s[i] && w[j] == s[j]);
                }
            }
            if s.last().timestamp >= cutoff {
                let u = t.push(s.last());
                assert forall|i: int, j: int| 0 <= i < j < u.len() implies u[i].snapshot_id != u[j].snapshot_id by {
                    if j == u.len() - 1 {
                        assert(u[i] == t[i]);
                        assert(t.contains(u[i]));
                        assert(w.contains(u[i]));
                        let k = choose|k: int| 0 <= k < w.len() && w[k] == u[i];
                        assert(w[k] == s[k]);
                        assert(s[k].snapshot_id != s[s.len() - 1].snapshot_id);
                        assert(u[j] == s.last());
                    } else {
                        assert(u[i] == t[i] && u[j] == t[j]);
                    }
                }
            }
        }
    }
}

proof fn lemma_remove_unique(s: Seq<SnapshotFileView>, i: int)
    requires
        ids_unique(s),
        0 <= i < s.len(),
    ensures
        ids_unique(s.remove(i)),
{
    let q = s.remove(i);
    assert forall|a: int, b: int| 0 <= a < b < q.len() implies q[a].snapshot_id != q[b].snapshot_id by {
        let a2 = if a < i { a } else { a + 1 };
        let b2 = if b < i { b } else { b + 1 };
        assert(q[a] == s[a2] && q[b] == s[b2]);
    }
}

proof fn lemma_unique_views(v: Seq<SnapshotFile>)
    ensures
        keys_unique(v, snap_key()) <==> ids_unique(files_view(v)),
{
    let f = files_view(v);
    if keys_unique(v, snap_key()) {
        assert forall|i: int, j: int| 0 <= i < j < f.len() implies f[i].snapshot_id != f[j].snapshot_id by {
            assert(snap_key()(v[i]) != snap_key()(v[j]));
        }
    }
    if ids_unique(f) {
        assert forall|i: int, j: int| 0 <= i < j < v.len() implies snap_key()(v[i]) != snap_key()(v[j]) by {
            assert(f[i].snapshot_id != f[j].snapshot_id);
        }
    }
}

impl SnapshotService {
    /// Drops snapshots when there are more than the limit: first those
    /// taken before `now` less the retention, then, while more than the
    /// limit remain, the oldest; gives the numbers of those dropped.
    pub fn cleanup_at(&mut self, now: i64) -> (r: Vec<u64>)
        requires
            i64::MIN <= now - old(self).retention() <= i64::MAX,
        ensures
            final(self).entries() == kept_after_cleanup(old(self).entries(), old(self).limit(), now, old(self).retention()),
            r@ == dropped_by_cleanup(old(self).entries(), old(self).limit(), now, old(self).retention()),
            final(self).next_number() == old(self).next_number(),
            final(self).limit() == old(self).limit(),
            final(self).retention() == old(self).retention(),
            final(self).dir() == old(self).dir(),
    {
        proof { use_type_invariant(&*self); }
        let mut removed: Vec<u64> = Vec::new();
        if self.snapshots.len() <= self.max_snapshots {
            return removed;
        }
        let cutoff = now - self.retention_seconds;
        let ghost all = files_view(self.snapshots@);
        let mut fresh: Vec<SnapshotFile> = Vec::new();
        let mut i: usize = 0;
        while i < self.snapshots.len()
            invariant
                i <= self.snapshots@.len(),
                all == files_view(self.snapshots@),
                files_view(fresh@) == taken_since(all.take(i as int), cutoff as int),
                removed@ == expired_ids(all.take(i as int), cutoff as int),
            decreases self.snapshots@.len() - i,
        {
            proof {
                let t = all.take(i + 1);
                assert(t.drop_last() =~= all.take(i as int));
                assert(t.last() == self.snapshots@[i as int]@);
            }
            let f = &self.snapshots[i];
            if f.manifest.timestamp < cutoff {
                removed.push(f.manifest.snapshot_id);
            } else {
                let c = f.duplicate();
                proof { assert(files_view(fresh@.push(c)) =~= files_view(fresh@).push(c@)); }
                fresh.push(c);
            }
            i = i + 1;
        }
        proof {
            assert(all.take(all.len() as int) =~= all);
            lemma_unique_views(self.snapshots@);
            lemma_taken_since(all, cutoff as int);
        }
        let ghost fresh_all = files_view(fresh@);
        let ghost expired = removed@;
        let max = self.max_snapshots;
        let ghost excess: nat = if fresh@.len() > max { (fresh@.len() - max) as nat } else { 0 };
        while fresh.len() > max
            invariant
                ids_unique(files_view(fresh@)),
                fresh_all.len() > max ==> fresh@.len() >= max,
                excess - (fresh_all.len() - fresh@.len()) >= 0,
                fresh_all.len() > max ==> drop_oldest(fresh_all, excess) == drop_oldest(files_view(fresh@), (fresh@.len() - max) as nat),
                fresh_all.len() > max ==> expired + oldest_ids(fresh_all, excess)
                    == removed@ + oldest_ids(files_view(fresh@), (fresh@.len() - max) as nat),
                fresh_all.len() <= max ==> fresh@.len() == fresh_all.len() && removed@ == expired && files_view(fresh@) == fresh_all,
                excess == (if fresh_all.len() > max { (fresh_all.len() - max) as nat } else { 0nat }),
            decreases fresh@.len(),
        {
            let ghost fv = files_view(fresh@);
            proof { lemma_oldest_index(fv); }
            let mut best: usize = 0;
            let mut j: usize = 1;
            while j < fresh.len()
                invariant
                    1 <= j <= fresh@.len(),
                    fv == files_view(fresh@),
                    best < j,
                    best == oldest_index(fv.take(j as int)),
                decreases fresh@.len() - j,
            {
                proof {
                    let t = fv.take(j + 1);
                    assert(t.drop_last() =~= fv.take(j as int));
                    assert(t.last() == fresh@[j as int]@);
                    assert(t[best as int] == fv[best as int]);
                }
                if fresh[j].manifest.timestamp < fresh[best].manifest.timestamp {
                    best = j;
                }
                j = j + 1;
            }
            proof {
                assert(fv.take(fresh@.len() as int) =~= fv);
                assert(fv.take(1).len() == 1);
            }
            let gone = fresh.remove(best);
            removed.push(gone.manifest.snapshot_id);
            proof {
                assert(files_view(fresh@) =~= fv.remove(best as int));
                lemma_remove_unique(fv, best as int);
                let k = (fv.len() - max) as nat;
                assert(drop_oldest(fv, k) == drop_oldest(fv.remove(oldest_index(fv)), (k - 1) as nat));
                assert(oldest_ids(fv, k) == seq![gone@.snapshot_id] + oldest_ids(fv.remove(oldest_index(fv)), (k - 1) as nat));
                assert(removed@ =~= removed@.drop_last().push(gone@.snapshot_id));
            }
        }
        proof {
            if fresh_all.len() > max {
                let k = (fresh@.len() - max) as nat;
                assert(k == 0);
                assert(oldest_ids(files_view(fresh@), 0) =~= Seq::<u64>::empty());
                assert(removed@ + Seq::<u64>::empty() =~= removed@);
            } else {
                assert(expired + Seq::<u64>::empty() =~= expired);
            }
            lemma_unique_views(fresh@);
        }
        self.snapshots = fresh;
        removed
    }
}

} // verus!
