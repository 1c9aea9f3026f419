//! The index of the blocks of a column file: each block's place, time span,
//! row count and value range, and the search for blocks by time.

use vstd::prelude::*;
use vstd::slice::slice_to_vec;

verus! {

/// Whether `a` comes before `b` in byte-wise lexicographic order (a proper
/// prefix comes first).
pub open spec fn lex_lt(a: Seq<u8>, b: Seq<u8>) -> bool
    decreases a.len(),
{
    if a.len() == 0 {
        b.len() > 0
    } else if b.len() == 0 {
        false
    } else if a[0] != b[0] {
        a[0] < b[0]
    } else {
        lex_lt(a.drop_first(), b.drop_first())
    }
}

/// Whether `a` comes before `b` in byte-wise lexicographic order, computed.
pub fn bytes_less(a: &[u8], b: &[u8]) -> (r: bool)
    ensures
        r == lex_lt(a@, b@),
{
    let mut i: usize = 0;
    proof {
        assert(a@.skip(0) =~= a@);
        assert(b@.skip(0) =~= b@);
    }
    while i < a.len() && i < b.len()
        invariant
            i <= a@.len(),
            i <= b@.len(),
            lex_lt(a@.skip(i as int), b@.skip(i as int)) == lex_lt(a@, b@),
        decreases a@.len() - i,
    {
        if a[i] != b[i] {
            proof {
                assert(a@.skip(i as int)[0] == a@[i as int]);
                assert(b@.skip(i as int)[0] == b@[i as int]);
            }
            return a[i] < b[i];
        }
        proof {
            assert(a@.skip(i as int).drop_first() =~= a@.skip(i + 1));
            assert(b@.skip(i as int).drop_first() =~= b@.skip(i + 1));
            assert(a@.skip(i as int)[0] == a@[i as int]);
            assert(b@.skip(i as int)[0] == b@[i as int]);
        }
        i = i + 1;
    }
    proof {
        if i == a.len() {
            assert(a@.skip(i as int).len() == 0);
        } else {
            assert(b@.skip(i as int).len() == 0);
        }
    }
    i == a.len() && i < b.len()
}

/// Where a block of a column lies, and what it holds.
#[derive(Debug, Clone)]
pub struct BlockMeta {
    pub column_id: u32,
    pub block_id: u32,
    pub offset: u64,
    pub size: u64,
    pub min_time: i64,
    pub max_time: i64,
    pub row_count: u32,
    pub min_value: Vec<u8>,
    pub max_value: Vec<u8>,
}

impl BlockMeta {
    /// A block with no rows yet: an empty time span (from the largest time
    /// to the smallest) and no values.
    pub fn new(column_id: u32, block_id: u32, offset: u64, size: u64) -> (r: Self)
        ensures
            r.column_id == column_id,
            r.block_id == block_id,
            r.offset == offset,
            r.size == size,
            r.min_time == i64::MAX,
            r.max_time == i64::MIN,
            r.row_count == 0,
            r.min_value@.len() == 0,
            r.max_value@.len() == 0,
    {
        BlockMeta {
            column_id,
            block_id,
            offset,
            size,
            min_time: i64::MAX,
            max_time: i64::MIN,
            row_count: 0,
            min_value: Vec::new(),
            max_value: Vec::new(),
        }
    }

    /// Counts a row at the given time, widening the time span to it.
    pub fn update_time(&mut self, timestamp: i64)
        requires
            old(self).row_count < u32::MAX,
        ensures
            final(self).min_time == if timestamp < old(self).min_time { timestamp } else { old(self).min_time },
            final(self).max_time == if timestamp > old(self).max_time { timestamp } else { old(self).max_time },
            final(self).row_count == old(self).row_count + 1,
            final(self).column_id == old(self).column_id,
            final(self).block_id == old(self).block_id,
            final(self).offset == old(self).offset,
            final(self).size == old(self).size,
            final(self).min_value == old(self).min_value,
            final(self).max_value == old(self).max_value,
    {
        if timestamp < self.min_time {
            self.min_time = timestamp;
        }
        if timestamp > self.max_time {
            self.max_time = timestamp;
        }
        self.row_count = self.row_count + 1;
    }

    /// Widens the value range to a value: it becomes the least value when
    /// there is none yet or it comes first, and the greatest when there is
    /// none yet or it comes last, in byte-wise order.
    pub fn update_value(&mut self, value: &[u8])
        ensures
            final(self).min_value@ == if old(self).min_value@.len() == 0 || lex_lt(value@, old(self).min_value@) { value@ } else { old(self).min_value@ },
            final(self).max_value@ == if old(self).max_value@.len() == 0 || lex_lt(old(self).max_value@, value@) { value@ } else { old(self).max_value@ },
            final(self).min_time == old(self).min_time,
            final(self).max_time == old(self).max_time,
            final(self).row_count == old(self).row_count,
            final(self).column_id == old(self).column_id,
            final(self).block_id == old(self).block_id,
            final(self).offset == old(self).offset,
            final(self).size == old(self).size,
    {
        if self.min_value.len() == 0 || bytes_less(value, self.min_value.as_slice()) {
            self.min_value = slice_to_vec(value);
        }
        if self.max_value.len() == 0 || bytes_less(self.max_value.as_slice(), value) {
            self.max_value = slice_to_vec(value);
        }
    }

    /// Whether a time lies within the block's span, ends included.
    pub fn contains_time(&self, time: i64) -> (r: bool)
        ensures
            r == (self.min_time <= time <= self.max_time),
    {
        time >= self.min_time && time <= self.max_time
    }

    /// Whether the block's span meets the range from `start` to `end`,
    /// ends included.
    pub fn overlaps_time_range(&self, start: i64, end: i64) -> (r: bool)
        ensures
            r == (self.max_time >= start && self.min_time <= end),
    {
        self.max_time >= start && self.min_time <= end
    }
}

/// The ids of the blocks of a list whose spans meet a time range, in order.
pub open spec fn blocks_in_range(s: Seq<BlockMeta>, start: i64, end: i64) -> Seq<u32>
    decreases s.len(),
{
    if s.len() == 0 {
        Seq::empty()
    } else {
        let rest = blocks_in_range(s.drop_last(), start, end);
        if s.last().max_time >= start && s.last().min_time <= end { rest.push(s.last().block_id) } else { rest }
    }
}

/// The blocks of a column file, in the order they were added.
#[derive(Debug, Clone)]
pub struct BlockIndex {
    pub blocks: Vec<BlockMeta>,
}

impl BlockIndex {
    /// An index of no blocks.
    pub fn new() -> (r: Self)
        ensures
            r.blocks@.len() == 0,
    {
        BlockIndex { blocks: Vec::new() }
    }

    /// Appends a block.
    pub fn add_block(&mut self, meta: BlockMeta)
        ensures
            final(self).blocks@ == old(self).blocks@.push(meta),
    {
        self.blocks.push(meta);
    }

    /// The block at the position given by the id.
    pub fn get_block(&self, block_id: u32) -> (r: Option<&BlockMeta>)
        ensures
            r == if (block_id as int) < self.blocks@.len() { Some(&self.blocks@[block_id as int]) } else { None },
    {
        let i = block_id as usize;
        if i < self.blocks.len() {
            Some(&self.blocks[i])
        } else {
            None
        }
    }

    /// The ids of the blocks whose spans meet the time range, in order.
    pub fn find_blocks_by_time(&self, start: i64, end: i64) -> (r: Vec<u32>)
        ensures
            r@ == blocks_in_range(self.blocks@, start, end),
    {
        let mut r: Vec<u32> = Vec::new();
        let mut i: usize = 0;
        while i < self.blocks.len()
            invariant
                i <= self.blocks@.len(),
                r@ == blocks_in_range(self.blocks@.take(i as int), start, end),
            decreases self.blocks@.len() - i,
        {
            proof {
                assert(self.blocks@.take(i + 1).drop_last() =~= self.blocks@.take(i as int));
            }
            if self.blocks[i].overlaps_time_range(start, end) {
                r.push(self.blocks[i].block_id);
            }
            i = i + 1;
        }
        proof { assert(self.blocks@.take(self.blocks@.len() as int) =~= self.blocks@); }
        r
    }

    /// The number of blocks.
    pub fn len(&self) -> (r: usize)
        ensures
            r == self.blocks@.len(),
    {
        self.blocks.len()
    }

    /// Whether there are no blocks.
    pub fn is_empty(&self) -> (r: bool)
        ensures
            r == (self.blocks@.len() == 0),
    {
        self.blocks.len() == 0
    }
}

impl Default for BlockIndex {
    fn default() -> (r: Self)
        ensures
            r.blocks@.len() == 0,
    {
        Self::new()
    }
}

/// A block found for a time range is one whose span meets the range, and
/// every such block is found.
pub proof fn law_found_blocks_are_those_in_range(s: Seq<BlockMeta>, start: i64, end: i64, id: u32)
    ensures
        blocks_in_range(s, start, end).contains(id) <==>
            exists|i: int| 0 <= i < s.len() && s[i].block_id == id && s[i].max_time >= start && s[i].min_time <= end,
    decreases s.len(),
{
    if s.len() > 0 {
        let init = s.drop_last();
        law_found_blocks_are_those_in_range(init, start, end, id);
        let rest = blocks_in_range(init, start, end);
        if exists|i: int| 0 <= i < init.len() && init[i].block_id == id && init[i].max_time >= start && init[i].min_time <= end {
            let i = choose|i: int| 0 <= i < init.len() && init[i].block_id == id && init[i].max_time >= start && init[i].min_time <= end;
            assert(s[i] == init[i]);
        }
        if exists|i: int| 0 <= i < s.len() && s[i].block_id == id && s[i].max_time >= start && s[i].min_time <= end {
            let i = choose|i: int| 0 <= i < s.len() && s[i].block_id == id && s[i].max_time >= start && s[i].min_time <= end;
            if i < s.len() - 1 {
                assert(init[i] == s[i]);
            } else {
                assert(rest.push(id).last() == id);
                assert(rest.push(id)[rest.len() as int] == id);
            }
        }
        if blocks_in_range(s, start, end).contains(id) && !rest.contains(id) {
            let k = choose|k: int| 0 <= k < blocks_in_range(s, start, end).len() && blocks_in_range(s, start, end)[k] == id;
            assert(k == rest.len());
            assert(s[s.len() - 1] == s.last());
        }
        if rest.contains(id) {
            let k = choose|k: int| 0 <= k < rest.len() && rest[k] == id;
            if s.last().max_time >= start && s.last().min_time <= end {
                assert(rest.push(s.last().block_id)[k] == id);
            }
        }
    } else {
        assert(blocks_in_range(s, start, end).len() == 0);
    }
}

} // verus!
