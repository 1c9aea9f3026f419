//! Columnar file metadata, the file reader and writer handles, and the
//! stable ordering of file lists that compaction and merge planning use.

use vstd::prelude::*;
use crate::config::TsspConfig;
use crate::error::Error;

verus! {

/// Metadata of one columnar file.
#[derive(Debug, Clone)]
pub struct FileMeta {
    pub file_id: u64,
    pub min_time: i64,
    pub max_time: i64,
    pub size: u64,
    pub bloom_filter_data: Option<Vec<u8>>,
}

/// The abstract value of file metadata.
pub struct FileMetaView {
    pub file_id: u64,
    pub min_time: i64,
    pub max_time: i64,
    pub size: u64,
    pub bloom_filter_data: Option<Seq<u8>>,
}

impl View for FileMeta {
    type V = FileMetaView;

    open spec fn view(&self) -> FileMetaView {
        FileMetaView {
            file_id: self.file_id,
            min_time: self.min_time,
            max_time: self.max_time,
            size: self.size,
            bloom_filter_data: match self.bloom_filter_data {
                Some(v) => Some(v@),
                None => None,
            },
        }
    }
}

/// The abstract values of a list of file metadata.
pub open spec fn file_views(s: Seq<FileMeta>) -> Seq<FileMetaView> {
    s.map_values(|f: FileMeta| f@)
}

impl FileMeta {
    /// A copy with the same abstract value.
    pub fn duplicate(&self) -> (r: Self)
        ensures
            r@ == self@,
    {
        FileMeta {
            file_id: self.file_id,
            min_time: self.min_time,
            max_time: self.max_time,
            size: self.size,
            bloom_filter_data: match &self.bloom_filter_data {
                Some(v) => Some(v.clone()),
                None => None,
            },
        }
    }

    /// Metadata with every number zero and no filter, as the writer stub
    /// reports it.
    pub open spec fn empty_view() -> FileMetaView {
        FileMetaView { file_id: 0, min_time: 0, max_time: 0, size: 0, bloom_filter_data: None }
    }
}

/// Copies of a slice of file metadata, in order.
pub fn duplicate_files(files: &[FileMeta]) -> (r: Vec<FileMeta>)
    ensures
        file_views(r@) == file_views(files@),
{
    let mut r: Vec<FileMeta> = Vec::new();
    let mut i: usize = 0;
    while i < files.len()
        invariant
            i <= files@.len(),
            r@.len() == i,
            forall|j: int| 0 <= j < i ==> #[trigger] r@[j]@ == files@[j]@,
        decreases files@.len() - i,
    {
        r.push(files[i].duplicate());
        i = i + 1;
    }
    assert(file_views(r@) =~= file_views(files@));
    r
}

/// The two orders in which file lists are arranged.
#[derive(Debug, Clone, Copy, PartialEq, Eq, Structural)]
pub enum FileOrder {
    /// Larger files first; among equal sizes, older minimum time first.
    LargestFirst,
    /// Older minimum time first.
    OldestFirst,
}

/// Whether `a` must come strictly before `b` in the given order.
pub open spec fn strictly_before(order: FileOrder, a: FileMetaView, b: FileMetaView) -> bool {
    match order {
        FileOrder::LargestFirst => a.size > b.size || (a.size == b.size && a.min_time < b.min_time),
        FileOrder::OldestFirst => a.min_time < b.min_time,
    }
}

/// `x` placed into `s` after every element that it does not strictly
/// precede.
pub open spec fn insert_in_order(order: FileOrder, s: Seq<FileMetaView>, x: FileMetaView) -> Seq<FileMetaView>
    decreases s.len(),
{
    if s.len() == 0 {
        seq![x]
    } else if !strictly_before(order, x, s.last()) {
        s.push(x)
    } else {
        insert_in_order(order, s.drop_last(), x).push(s.last())
    }
}

/// The stable sort of a list: elements that neither precedes keep their
/// relative order.
pub open spec fn stable_sort(order: FileOrder, s: Seq<FileMetaView>) -> Seq<FileMetaView>
    decreases s.len(),
{
    if s.len() == 0 {
        s
    } else {
        insert_in_order(order, stable_sort(order, s.drop_last()), s.last())
    }
}

/// Whether no element of the list is strictly preceded by a later one.
pub open spec fn arranged(order: FileOrder, s: Seq<FileMetaView>) -> bool {
    forall|i: int, j: int| 0 <= i < j < s.len() ==> !strictly_before(order, s[j], s[i])
}

/// Whether `a` strictly precedes `b`, computed.
pub fn precedes(order: FileOrder, a: &FileMeta, b: &FileMeta) -> (r: bool)
    ensures
        r == strictly_before(order, a@, b@),
{
    match order {
        FileOrder::LargestFirst => a.size > b.size || (a.size == b.size && a.min_time < b.min_time),
        FileOrder::OldestFirst => a.min_time < b.min_time,
    }
}

proof fn lemma_insert_position(order: FileOrder, s: Seq<FileMetaView>, x: FileMetaView, p: int)
    requires
        0 <= p <= s.len(),
        forall|j: int| p <= j < s.len() ==> strictly_before(order, x, #[trigger] s[j]),
        p == 0 || !strictly_before(order, x, s[p - 1]),
    ensures
        insert_in_order(order, s, x) == s.insert(p, x),
    decreases s.len(),
{
    if s.len() == 0 {
        assert(s.insert(p, x) =~= seq![x]);
    } else if !strictly_before(order, x, s.last()) {
        assert(p == s.len());
        assert(s.insert(p, x) =~= s.push(x));
    } else {
        assert(p < s.len());
        lemma_insert_position(order, s.drop_last(), x, p);
        assert(s.drop_last().insert(p, x).push(s.last()) =~= s.insert(p, x));
    }
}

/// Sorts a list of file metadata stably in the given order.
pub fn sort_files(order: FileOrder, files: Vec<FileMeta>) -> (r: Vec<FileMeta>)
    ensures
        file_views(r@) == stable_sort(order, file_views(files@)),
{
    let ghost input = file_views(files@);
    let mut rest = files;
    let mut sorted: Vec<FileMeta> = Vec::new();
    let n = rest.len();
    let mut k: usize = 0;
    while k < n
        invariant
            n == input.len(),
            k <= n,
            rest@.len() == n - k,
            forall|j: int| 0 <= j < rest@.len() ==> #[trigger] rest@[j]@ == input[k + j],
            file_views(sorted@) == stable_sort(order, input.take(k as int)),
        decreases n - k,
    {
        let x = rest.remove(0);
        let ghost xv = x@;
        let ghost before = file_views(sorted@);
        let mut p: usize = sorted.len();
        while p > 0 && precedes(order, &x, &sorted[p - 1])
            invariant
                p <= sorted@.len(),
                file_views(sorted@) == before,
                x@ == xv,
                forall|j: int| p <= j < sorted@.len() ==> strictly_before(order, xv, #[trigger] before[j]),
            decreases p,
        {
            p = p - 1;
        }
        proof {
            lemma_insert_position(order, before, xv, p as int);
            assert(input.take(k + 1).drop_last() =~= input.take(k as int));
            assert(input.take(k + 1).last() == xv);
        }
        sorted.insert(p, x);
        proof {
            assert(file_views(sorted@) =~= before.insert(p as int, xv));
        }
        k = k + 1;
    }
    proof { assert(input.take(n as int) =~= input); }
    sorted
}

proof fn lemma_insert_in_order_arranged(order: FileOrder, s: Seq<FileMetaView>, x: FileMetaView)
    requires
        arranged(order, s),
    ensures
        arranged(order, insert_in_order(order, s, x)),
        insert_in_order(order, s, x).to_multiset() == s.to_multiset().insert(x),
    decreases s.len(),
{
    broadcast use vstd::seq_lib::group_to_multiset_ensures;
    if s.len() == 0 {
        assert(seq![x] =~= Seq::<FileMetaView>::empty().push(x));
    } else if !strictly_before(order, x, s.last()) {
        let r = s.push(x);
        assert forall|i: int, j: int| 0 <= i < j < r.len() implies !strictly_before(order, r[j], r[i]) by {
            if j == s.len() {
                if i < s.len() - 1 {
                    assert(!strictly_before(order, s[s.len() - 1], s[i]));
                }
            }
        }
    } else {
        let init = s.drop_last();
        assert(arranged(order, init));
        lemma_insert_in_order_arranged(order, init, x);
        let mid = insert_in_order(order, init, x);
        let r = mid.push(s.last());
        assert forall|i: int, j: int| 0 <= i < j < r.len() implies !strictly_before(order, r[j], r[i]) by {
            if j == r.len() - 1 {
                assert(mid.to_multiset().count(r[i]) > 0);
                assert(init.to_multiset().insert(x).count(r[i]) > 0);
                if r[i] != x {
                    assert(init.to_multiset().count(r[i]) > 0);
                    assert(init.contains(r[i]));
                    let k = choose|k: int| 0 <= k < init.len() && init[k] == r[i];
                    assert(!strictly_before(order, s[s.len() - 1], s[k]));
                }
            }
        }
        assert(s =~= init.push(s.last()));
    }
}

/// A stable sort arranges the list in order and is a permutation of it:
/// every element occurs as often before as after.
pub proof fn law_stable_sort_is_ordered_permutation(order: FileOrder, s: Seq<FileMetaView>)
    ensures
        arranged(order, stable_sort(order, s)),
        stable_sort(order, s).to_multiset() == s.to_multiset(),
        stable_sort(order, s).len() == s.len(),
    decreases s.len(),
{
    broadcast use vstd::seq_lib::group_to_multiset_ensures;
    if s.len() > 0 {
        law_stable_sort_is_ordered_permutation(order, s.drop_last());
        lemma_insert_in_order_arranged(order, stable_sort(order, s.drop_last()), s.last());
        assert(s =~= s.drop_last().push(s.last()));
    }
    assert(stable_sort(order, s).to_multiset().len() == stable_sort(order, s).len());
}

/// Handle that writes columnar files.
pub struct TsspWriter {
    pub config: TsspConfig,
}

/// Handle that reads columnar files.
pub struct TsspReader {
    pub config: TsspConfig,
}

impl TsspWriter {
    /// A writer with the given configuration.
    pub fn new(config: TsspConfig) -> (r: Self)
        ensures
            r.config == config,
    {
        TsspWriter { config }
    }

    /// Accepts a block of data; reports empty metadata.
    pub fn write(&mut self, data: &[u8]) -> (r: Result<FileMeta, Error>)
        ensures
            r matches Ok(m) && m@ == FileMeta::empty_view(),
    {
        Ok(FileMeta { file_id: 0, min_time: 0, max_time: 0, size: 0, bloom_filter_data: None })
    }

    /// Finishes the file; reports empty metadata.
    pub fn close(self) -> (r: Result<FileMeta, Error>)
        ensures
            r matches Ok(m) && m@ == FileMeta::empty_view(),
    {
        Ok(FileMeta { file_id: 0, min_time: 0, max_time: 0, size: 0, bloom_filter_data: None })
    }
}

impl TsspReader {
    /// A reader with the given configuration.
    pub fn new(config: TsspConfig) -> (r: Self)
        ensures
            r.config == config,
    {
        TsspReader { config }
    }

    /// Reads a file's contents; yields no bytes.
    pub fn read(&self, file_meta: &FileMeta) -> (r: Result<Vec<u8>, Error>)
        ensures
            r matches Ok(v) && v@.len() == 0,
    {
        Ok(Vec::new())
    }
}

} // verus!
