//! The series index: the set of series ids, kept in a Roaring bitmap of
//! 32-bit values (a 64-bit id is cut to its low 32 bits).

use vstd::prelude::*;
use roaring::RoaringBitmap;

verus! {

#[verifier::external_type_specification]
#[verifier::external_body]
pub struct ExRoaringBitmap(RoaringBitmap);

/// The values that a Roaring bitmap holds.
pub uninterp spec fn bitmap_set(b: RoaringBitmap) -> Set<u32>;

/// `RoaringBitmap::new`: an empty bitmap.
#[verifier::external_body]
fn bitmap_new() -> (r: RoaringBitmap)
    ensures
        bitmap_set(r) == Set::<u32>::empty(),
{
    RoaringBitmap::new()
}

/// `RoaringBitmap::insert`: adds a value; true where it was absent.
#[verifier::external_body]
fn bitmap_insert(b: &mut RoaringBitmap, value: u32) -> (r: bool)
    ensures
        bitmap_set(*final(b)) == bitmap_set(*old(b)).insert(value),
        r == !bitmap_set(*old(b)).contains(value),
{
    b.insert(value)
}

/// `RoaringBitmap::contains`.
#[verifier::external_body]
fn bitmap_contains(b: &RoaringBitmap, value: u32) -> (r: bool)
    ensures
        r == bitmap_set(*b).contains(value),
{
    b.contains(value)
}

/// `RoaringBitmap::len`: the number of distinct values.
#[verifier::external_body]
fn bitmap_len(b: &RoaringBitmap) -> (r: u64)
    ensures
        r == bitmap_set(*b).len(),
{
    b.len()
}

/// `RoaringBitmap::is_empty`.
#[verifier::external_body]
fn bitmap_is_empty(b: &RoaringBitmap) -> (r: bool)
    ensures
        r == (bitmap_set(*b) == Set::<u32>::empty()),
{
    b.is_empty()
}

/// `RoaringBitmap::clear`: removes every value.
#[verifier::external_body]
fn bitmap_clear(b: &mut RoaringBitmap)
    ensures
        bitmap_set(*final(b)) == Set::<u32>::empty(),
{
    b.clear()
}

/// `RoaringBitmap::iter`: the values, each once, in ascending order.
#[verifier::external_body]
fn bitmap_values(b: &RoaringBitmap) -> (r: Vec<u32>)
    ensures
        r@.to_set() == bitmap_set(*b),
        forall|i: int, j: int| 0 <= i < j < r@.len() ==> r@[i] < r@[j],
{
    b.iter().collect()
}

/// `RoaringBitmap::from_iter`: a bitmap of the values of a list.
#[verifier::external_body]
fn bitmap_from_values(v: &Vec<u32>) -> (r: RoaringBitmap)
    ensures
        bitmap_set(r) == v@.to_set(),
{
    v.iter().copied().collect()
}

/// The ids of a bitmap from `start` (included) to `end` (excluded).
pub open spec fn in_range(s: Set<u32>, start: u32, end: u32) -> Set<u32> {
    s.filter(|x: u32| start <= x && x < end)
}

/// The set of series ids.
pub struct SeriesIndex {
    bitmap: RoaringBitmap,
}

impl SeriesIndex {
    /// The ids held, cut to 32 bits.
    pub closed spec fn ids(&self) -> Set<u32> {
        bitmap_set(self.bitmap)
    }

    /// An empty index.
    pub fn new() -> (r: Self)
        ensures
            r.ids() == Set::<u32>::empty(),
    {
        SeriesIndex { bitmap: bitmap_new() }
    }

    /// Adds a series id, cut to its low 32 bits.
    pub fn add(&mut self, series_id: u64)
        ensures
            final(self).ids() == old(self).ids().insert(series_id as u32),
    {
        bitmap_insert(&mut self.bitmap, series_id as u32);
    }

    /// Whether the index holds a series id, cut to its low 32 bits.
    pub fn contains(&self, series_id: u64) -> (r: bool)
        ensures
            r == self.ids().contains(series_id as u32),
    {
        bitmap_contains(&self.bitmap, series_id as u32)
    }

    /// The ids from `start` to `end` (excluded), both cut to 32 bits.
    pub fn range(&self, start: u64, end: u64) -> (r: RoaringBitmap)
        ensures
            bitmap_set(r) == in_range(self.ids(), start as u32, end as u32),
    {
        let lo = start as u32;
        let hi = end as u32;
        let values = bitmap_values(&self.bitmap);
        let mut kept: Vec<u32> = Vec::new();
        let mut i: usize = 0;
        while i < values.len()
            invariant
                i <= values@.len(),
                kept@.to_set() == values@.take(i as int).to_set().filter(|x: u32| lo <= x && x < hi),
            decreases values@.len() - i,
        {
            let x = values[i];
            proof {
                assert(values@.take(i + 1) =~= values@.take(i as int).push(x));
                values@.take(i as int).lemma_push_to_set_commute(x);
                assert(values@.take(i as int).push(x).to_set() =~= values@.take(i as int).to_set().insert(x));
            }
            if lo <= x && x < hi {
                proof { kept@.lemma_push_to_set_commute(x); }
                kept.push(x);
            }
            proof {
                assert(kept@.to_set() =~= values@.take(i + 1).to_set().filter(|x: u32| lo <= x && x < hi));
            }
            i = i + 1;
        }
        proof { assert(values@.take(values@.len() as int) =~= values@); }
        bitmap_from_values(&kept)
    }

    /// Whether the index holds no id.
    pub fn is_empty(&self) -> (r: bool)
        ensures
            r == (self.ids() == Set::<u32>::empty()),
    {
        bitmap_is_empty(&self.bitmap)
    }

    /// The number of ids held.
    pub fn len(&self) -> (r: u64)
        ensures
            r == self.ids().len(),
    {
        bitmap_len(&self.bitmap)
    }

    /// The number of ids held.
    pub fn cardinality(&self) -> (r: u64)
        ensures
            r == self.ids().len(),
    {
        bitmap_len(&self.bitmap)
    }

    /// Removes every id.
    pub fn clear(&mut self)
        ensures
            final(self).ids() == Set::<u32>::empty(),
    {
        bitmap_clear(&mut self.bitmap);
    }
}

impl Default for SeriesIndex {
    fn default() -> (r: Self)
        ensures
            r.ids() == Set::<u32>::empty(),
    {
        SeriesIndex::new()
    }
}

} // verus!
