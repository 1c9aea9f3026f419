//! Writing the rows of a columnar file in the layout that `decode_data`
//! reads: the header (table id 1, the columns' ids and names, a zero), then
//! a block of the timestamps (column 0), one of the length-prefixed tag
//! texts (column 1) and one of the length-prefixed field texts (column 2).

use vstd::prelude::*;
use crate::bloom::{le_bytes, u64_le_bytes};
use crate::prometheus::le_u64;
use crate::tssp_manager::{blocks, decoded, entry, header_end, le_u32, skip_entries, u64_at, DecodedRowView};

verus! {

/// A row to write: its timestamp and the JSON texts of its tags and fields.
#[derive(Debug, Clone)]
pub struct RowToWrite {
    pub timestamp: i64,
    pub tags_json: Vec<u8>,
    pub fields_json: Vec<u8>,
}

/// The abstract value of a row to write.
pub struct RowToWriteView {
    pub timestamp: i64,
    pub tags_json: Seq<u8>,
    pub fields_json: Seq<u8>,
}

impl View for RowToWrite {
    type V = RowToWriteView;

    open spec fn view(&self) -> RowToWriteView {
        RowToWriteView { timestamp: self.timestamp, tags_json: self.tags_json@, fields_json: self.fields_json@ }
    }
}

/// The four little-endian bytes of a number.
pub open spec fn le4(x: u32) -> Seq<u8> {
    seq![(x & 0xff) as u8, ((x >> 8) & 0xff) as u8, ((x >> 16) & 0xff) as u8, ((x >> 24) & 0xff) as u8]
}

/// Bytes after their length.
pub open spec fn prefixed(b: Seq<u8>) -> Seq<u8> {
    le_bytes(b.len() as u64) + b
}

/// Texts one after another, each after its length.
pub open spec fn prefixed_all(s: Seq<Seq<u8>>) -> Seq<u8>
    decreases s.len(),
{
    if s.len() == 0 { Seq::empty() } else { prefixed(s[0]) + prefixed_all(s.drop_first()) }
}

/// The timestamps of rows, eight little-endian bytes each.
pub open spec fn times_bytes(rows: Seq<RowToWriteView>) -> Seq<u8>
    decreases rows.len(),
{
    if rows.len() == 0 { Seq::empty() } else { le_bytes(rows[0].timestamp as u64) + times_bytes(rows.drop_first()) }
}

/// The header entries of columns: each one's id, the length of its name,
/// and its name.
pub open spec fn column_entries(cols: Seq<(u32, Seq<u8>)>) -> Seq<u8>
    decreases cols.len(),
{
    if cols.len() == 0 {
        Seq::empty()
    } else {
        le4(cols[0].0) + prefixed(cols[0].1) + column_entries(cols.drop_first())
    }
}

/// A block of a column: its id, its length and its bytes.
pub open spec fn block(id: u32, b: Seq<u8>) -> Seq<u8> {
    le4(id) + prefixed(b)
}

/// The tag texts of rows.
pub open spec fn tag_texts(rows: Seq<RowToWriteView>) -> Seq<Seq<u8>> {
    rows.map_values(|r: RowToWriteView| r.tags_json)
}

/// The field texts of rows.
pub open spec fn field_texts(rows: Seq<RowToWriteView>) -> Seq<Seq<u8>> {
    rows.map_values(|r: RowToWriteView| r.fields_json)
}

/// The bytes of a file of rows with the given columns in its header.
pub open spec fn file_bytes(cols: Seq<(u32, Seq<u8>)>, rows: Seq<RowToWriteView>) -> Seq<u8> {
    le_bytes(1) + le_bytes(cols.len() as u64) + column_entries(cols) + le_bytes(0)
        + block(0, times_bytes(rows)) + block(1, prefixed_all(tag_texts(rows))) + block(2, prefixed_all(field_texts(rows)))
}

/// What decoding gives for a row that was written.
pub open spec fn written_row(r: RowToWriteView) -> DecodedRowView {
    DecodedRowView { timestamp: r.timestamp, tags_json: Some(r.tags_json), fields_json: Some(r.fields_json) }
}

// ----- the round trip -----

proof fn lemma_le_u64(x: u64)
    ensures
        le_u64(le_bytes(x)) == x,
        le_bytes(x).len() == 8,
{
    let b = le_bytes(x);
    assert(b[0] == ((x >> 0u64) & 0xff) as u8);
    assert(b[1] == ((x >> 8u64) & 0xff) as u8);
    assert(b[2] == ((x >> 16u64) & 0xff) as u8);
    assert(b[3] == ((x >> 24u64) & 0xff) as u8);
    assert(b[4] == ((x >> 32u64) & 0xff) as u8);
    assert(b[5] == ((x >> 40u64) & 0xff) as u8);
    assert(b[6] == ((x >> 48u64) & 0xff) as u8);
    assert(b[7] == ((x >> 56u64) & 0xff) as u8);
    assert(
        ((((x >> 0u64) & 0xff) as u8) as u64) | (((((x >> 8u64) & 0xff) as u8) as u64) << 8) | (((((x >> 16u64) & 0xff) as u8) as u64) << 16)
        | (((((x >> 24u64) & 0xff) as u8) as u64) << 24) | (((((x >> 32u64) & 0xff) as u8) as u64) << 32)
        | (((((x >> 40u64) & 0xff) as u8) as u64) << 40) | (((((x >> 48u64) & 0xff) as u8) as u64) << 48)
        | (((((x >> 56u64) & 0xff) as u8) as u64) << 56) == x) by (bit_vector);
}

proof fn lemma_le_u32(x: u32)
    ensures
        le_u32(le4(x)) == x,
        le4(x).len() == 4,
{
    let b = le4(x);
    assert(
        ((((x & 0xff) as u8) as u32) | (((((x >> 8) & 0xff) as u8) as u32) << 8)
        | (((((x >> 16) & 0xff) as u8) as u32) << 16) | (((((x >> 24) & 0xff) as u8) as u32) << 24)) == x) by (bit_vector);
}

/// The `u64` at the start of `b` in `a + b + c`.
proof fn lemma_u64_in(a: Seq<u8>, x: u64, c: Seq<u8>)
    ensures
        u64_at(a + le_bytes(x) + c, a.len() as int) == x,
{
    lemma_le_u64(x);
    assert((a + le_bytes(x) + c).subrange(a.len() as int, a.len() as int + 8) =~= le_bytes(x));
}

proof fn lemma_u32_in(a: Seq<u8>, x: u32, c: Seq<u8>)
    ensures
        le_u32((a + le4(x) + c).subrange(a.len() as int, a.len() as int + 4)) == x,
{
    lemma_le_u32(x);
    assert((a + le4(x) + c).subrange(a.len() as int, a.len() as int + 4) =~= le4(x));
}

/// The header entries end where they were written.
proof fn lemma_header(p: Seq<u8>, cols: Seq<(u32, Seq<u8>)>, r: Seq<u8>)
    requires
        (p + column_entries(cols) + r).len() <= usize::MAX,
    ensures
        header_end(p + column_entries(cols) + r, p.len() as int, cols.len()) == p.len() + column_entries(cols).len(),
    decreases cols.len(),
{
    let d = p + column_entries(cols) + r;
    if cols.len() > 0 {
        let c0 = cols[0];
        let rest = cols.drop_first();
        let e0 = le4(c0.0) + prefixed(c0.1);
        lemma_le_u32(c0.0);
        lemma_le_u64(c0.1.len() as u64);
        assert(column_entries(cols) == e0 + column_entries(rest));
        assert(d =~= (p + le4(c0.0)) + le_bytes(c0.1.len() as u64) + (c0.1 + column_entries(rest) + r));
        lemma_u64_in(p + le4(c0.0), c0.1.len() as u64, c0.1 + column_entries(rest) + r);
        assert(u64_at(d, p.len() as int + 4) == c0.1.len() as u64);
        assert(((c0.1.len() as u64) as usize) as int == c0.1.len());
        let p2 = p + e0;
        assert(d =~= p2 + column_entries(rest) + r);
        lemma_header(p2, rest, r);
    }
}

/// A block read where it was written.
proof fn lemma_block_at(a: Seq<u8>, id: u32, b: Seq<u8>, c: Seq<u8>)
    ensures
        le_u32((a + block(id, b) + c).subrange(a.len() as int, a.len() as int + 4)) == id,
        u64_at(a + block(id, b) + c, a.len() as int + 4) == b.len() as u64,
        (a + block(id, b) + c).subrange(a.len() as int + 12, a.len() as int + 12 + b.len()) == b,
        block(id, b).len() == 12 + b.len(),
{
    let d = a + block(id, b) + c;
    lemma_le_u32(id);
    lemma_le_u64(b.len() as u64);
    assert(d =~= a + le4(id) + (le_bytes(b.len() as u64) + b + c));
    lemma_u32_in(a, id, le_bytes(b.len() as u64) + b + c);
    assert(d =~= (a + le4(id)) + le_bytes(b.len() as u64) + (b + c));
    lemma_u64_in(a + le4(id), b.len() as u64, b + c);
    assert(d.subrange(a.len() as int + 12, a.len() as int + 12 + b.len()) =~= b);
}

/// The blocks of the three columns, read back.
#[verifier::rlimit(50)]
proof fn lemma_blocks(p: Seq<u8>, t: Seq<u8>, g: Seq<u8>, f: Seq<u8>)
    requires
        (p + block(0, t) + block(1, g) + block(2, f)).len() <= usize::MAX,
    ensures
        blocks(p + block(0, t) + block(1, g) + block(2, f), p.len() as int, Map::empty())
            == Map::<u32, Seq<u8>>::empty().insert(0, t).insert(1, g).insert(2, f),
{
    let d = p + block(0, t) + block(1, g) + block(2, f);
    let p2 = p + block(0, t);
    let p3 = p2 + block(1, g);
    lemma_block_at(p, 0, t, block(1, g) + block(2, f));
    lemma_block_at(p2, 1, g, block(2, f));
    lemma_block_at(p3, 2, f, Seq::empty());
    assert(d =~= p + block(0, t) + (block(1, g) + block(2, f)));
    assert(d =~= p2 + block(1, g) + block(2, f));
    assert(d =~= p3 + block(2, f) + Seq::<u8>::empty());
    let o1 = p.len() as int;
    let o2 = p2.len() as int;
    let o3 = p3.len() as int;
    let o4 = d.len() as int;
    assert(o2 == o1 + 12 + t.len());
    assert(o3 == o2 + 12 + g.len());
    assert(o4 == o3 + 12 + f.len());
    assert(((t.len() as u64) as usize) as int == t.len());
    assert(((g.len() as u64) as usize) as int == g.len());
    assert(((f.len() as u64) as usize) as int == f.len());
    let m1 = Map::<u32, Seq<u8>>::empty().insert(0, t);
    let m2 = m1.insert(1, g);
    let m3 = m2.insert(2, f);
    assert(blocks(d, o4, m3) == m3);
    assert(blocks(d, o3, m2) == blocks(d, o4, m3));
    assert(blocks(d, o2, m1) == blocks(d, o3, m2));
    assert(blocks(d, o1, Map::empty()) == blocks(d, o2, m1));
}

proof fn lemma_times(rows: Seq<RowToWriteView>, i: int)
    requires
        0 <= i < rows.len(),
    ensures
        times_bytes(rows).len() == 8 * rows.len(),
        u64_at(times_bytes(rows), 8 * i) as i64 == rows[i].timestamp,
    decreases rows.len(),
{
    lemma_times_len(rows);
    let rest = rows.drop_first();
    if i == 0 {
        lemma_u64_in(Seq::empty(), rows[0].timestamp as u64, times_bytes(rest));
        assert(Seq::<u8>::empty() + le_bytes(rows[0].timestamp as u64) + times_bytes(rest) =~= times_bytes(rows));
        let ts = rows[0].timestamp;
        assert((ts as u64) as i64 == ts) by (bit_vector);
    } else {
        lemma_times(rest, i - 1);
        lemma_times_len(rest);
        lemma_le_u64(rows[0].timestamp as u64);
        assert(times_bytes(rows).subrange(8 * i, 8 * i + 8) =~= times_bytes(rest).subrange(8 * (i - 1), 8 * (i - 1) + 8));
        assert(rest[i - 1] == rows[i]);
    }
}

proof fn lemma_times_len(rows: Seq<RowToWriteView>)
    ensures
        times_bytes(rows).len() == 8 * rows.len(),
    decreases rows.len(),
{
    if rows.len() > 0 {
        lemma_times_len(rows.drop_first());
        lemma_le_u64(rows[0].timestamp as u64);
    }
}

/// Skipping `k` entries of texts written one after another lands after the
/// first `k` of them.
proof fn lemma_skip(p: Seq<u8>, s: Seq<Seq<u8>>, k: nat)
    requires
        k <= s.len(),
        (p + prefixed_all(s)).len() <= usize::MAX,
    ensures
        skip_entries(p + prefixed_all(s), p.len() as int, k) == p.len() + prefixed_all(s.take(k as int)).len(),
    decreases k,
{
    let b = p + prefixed_all(s);
    if k == 0 {
        assert(s.take(0) =~= Seq::<Seq<u8>>::empty());
    } else {
        let rest = s.drop_first();
        lemma_le_u64(s[0].len() as u64);
        assert(prefixed_all(s) == prefixed(s[0]) + prefixed_all(rest));
        assert(b =~= p + le_bytes(s[0].len() as u64) + (s[0] + prefixed_all(rest)));
        lemma_u64_in(p, s[0].len() as u64, s[0] + prefixed_all(rest));
        assert(((s[0].len() as u64) as usize) as int == s[0].len());
        let p2 = p + prefixed(s[0]);
        assert(b =~= p2 + prefixed_all(rest));
        lemma_skip(p2, rest, (k - 1) as nat);
        assert(s.take(k as int).drop_first() =~= rest.take(k - 1));
        assert(s.take(k as int)[0] == s[0]);
        assert(prefixed_all(s.take(k as int)) == prefixed(s[0]) + prefixed_all(rest.take(k - 1)));
    }
}

/// The texts written one after another are read back one by one.
proof fn lemma_entries(s: Seq<Seq<u8>>, i: int)
    requires
        0 <= i < s.len(),
        prefixed_all(s).len() <= usize::MAX,
    ensures
        entry(prefixed_all(s), i as nat) == Some(s[i]),
{
    let b = prefixed_all(s);
    assert(Seq::<u8>::empty() + b =~= b);
    lemma_skip(Seq::empty(), s, i as nat);
    let o = prefixed_all(s.take(i)).len() as int;
    lemma_split(s, i);
    let after = prefixed_all(s.skip(i + 1));
    assert(b =~= prefixed_all(s.take(i)) + le_bytes(s[i].len() as u64) + (s[i] + after));
    lemma_u64_in(prefixed_all(s.take(i)), s[i].len() as u64, s[i] + after);
    lemma_le_u64(s[i].len() as u64);
    assert(((s[i].len() as u64) as usize) as int == s[i].len());
    assert(b.subrange(o + 8, o + 8 + s[i].len()) =~= s[i]);
}

/// Texts written one after another, split at one of them.
proof fn lemma_split(s: Seq<Seq<u8>>, i: int)
    requires
        0 <= i < s.len(),
    ensures
        prefixed_all(s) == prefixed_all(s.take(i)) + prefixed(s[i]) + prefixed_all(s.skip(i + 1)),
    decreases i,
{
    let rest = s.drop_first();
    if i == 0 {
        assert(s.take(0) =~= Seq::<Seq<u8>>::empty());
        assert(s.skip(1) =~= rest);
        assert(prefixed_all(s) =~= Seq::<u8>::empty() + prefixed(s[0]) + prefixed_all(rest));
    } else {
        lemma_split(rest, i - 1);
        assert(rest[i - 1] == s[i]);
        assert(rest.skip(i) =~= s.skip(i + 1));
        assert(s.take(i).drop_first() =~= rest.take(i - 1));
        assert(s.take(i)[0] == s[0]);
        assert(prefixed_all(s.take(i)) == prefixed(s[0]) + prefixed_all(rest.take(i - 1)));
        assert(prefixed_all(s) =~= prefixed_all(s.take(i)) + prefixed(s[i]) + prefixed_all(s.skip(i + 1)));
    }
}

/// Decoding the bytes of a file written from rows gives the rows back: as
/// many rows, each with its timestamp and its tag and field texts.
pub proof fn law_decode_gives_back_rows(cols: Seq<(u32, Seq<u8>)>, rows: Seq<RowToWriteView>)
    requires
        file_bytes(cols, rows).len() <= usize::MAX,
        cols.len() <= usize::MAX,
    ensures
        decoded(file_bytes(cols, rows)) == Some(rows.map_values(|r: RowToWriteView| written_row(r))),
{
    let d = file_bytes(cols, rows);
    let t = times_bytes(rows);
    let g = prefixed_all(tag_texts(rows));
    let f = prefixed_all(field_texts(rows));
    let hdr = le_bytes(1) + le_bytes(cols.len() as u64);
    lemma_le_u64(1);
    lemma_le_u64(cols.len() as u64);
    lemma_le_u64(0);
    let tail = le_bytes(0) + block(0, t) + block(1, g) + block(2, f);
    assert(d =~= hdr + column_entries(cols) + tail);
    assert(d =~= le_bytes(1) + le_bytes(cols.len() as u64) + (column_entries(cols) + tail));
    lemma_u64_in(le_bytes(1), cols.len() as u64, column_entries(cols) + tail);
    assert(((cols.len() as u64) as usize) as nat == cols.len());
    lemma_header(hdr, cols, tail);
    let h = 16 + column_entries(cols).len();
    assert(d =~= (hdr + column_entries(cols)) + le_bytes(0) + (block(0, t) + block(1, g) + block(2, f)));
    lemma_u64_in(hdr + column_entries(cols), 0, block(0, t) + block(1, g) + block(2, f));
    let pre = hdr + column_entries(cols) + le_bytes(0);
    assert(d =~= pre + block(0, t) + block(1, g) + block(2, f));
    lemma_blocks(pre, t, g, f);
    let cmap = Map::<u32, Seq<u8>>::empty().insert(0, t).insert(1, g).insert(2, f);
    assert(cmap[0] == t && cmap[1] == g && cmap[2] == f);
    lemma_times_len(rows);
    assert(g.len() <= d.len());
    assert(f.len() <= d.len());
    let want = rows.map_values(|r: RowToWriteView| written_row(r));
    let got = Seq::new((t.len() / 8) as nat, |i: int| DecodedRowView {
        timestamp: u64_at(t, 8 * i) as i64,
        tags_json: crate::tssp_manager::column_entry(Some(g), i as nat),
        fields_json: crate::tssp_manager::column_entry(Some(f), i as nat),
    });
    assert forall|i: int| 0 <= i < rows.len() implies got[i] == want[i] by {
        lemma_times(rows, i);
        lemma_entries(tag_texts(rows), i);
        lemma_entries(field_texts(rows), i);
    }
    assert(got =~= want);
}

// ----- writing -----

fn append(out: &mut Vec<u8>, b: &[u8])
    ensures
        final(out)@ == old(out)@ + b@,
{
    let mut i: usize = 0;
    while i < b.len()
        invariant
            i <= b@.len(),
            out@ == old(out)@ + b@.take(i as int),
        decreases b@.len() - i,
    {
        out.push(b[i]);
        proof { assert(b@.take(i + 1) =~= b@.take(i as int).push(b@[i as int])); }
        i = i + 1;
    }
    proof { assert(b@.take(b@.len() as int) =~= b@); }
}

fn append_u64(out: &mut Vec<u8>, x: u64)
    ensures
        final(out)@ == old(out)@ + le_bytes(x),
{
    let b = u64_le_bytes(x);
    append(out, &b);
}

fn append_u32(out: &mut Vec<u8>, x: u32)
    ensures
        final(out)@ == old(out)@ + le4(x),
{
    let b = [(x & 0xff) as u8, ((x >> 8) & 0xff) as u8, ((x >> 16) & 0xff) as u8, ((x >> 24) & 0xff) as u8];
    proof { assert(b@ =~= le4(x)); }
    append(out, &b);
}

fn prefixed_column(texts: &Vec<Vec<u8>>) -> (r: Vec<u8>)
    requires
        prefixed_all(texts@.map_values(|t: Vec<u8>| t@)).len() <= usize::MAX,
    ensures
        r@ == prefixed_all(texts@.map_values(|t: Vec<u8>| t@)),
{
    let ghost s = texts@.map_values(|t: Vec<u8>| t@);
    let mut out: Vec<u8> = Vec::new();
    let mut i: usize = 0;
    while i < texts.len()
        invariant
            s == texts@.map_values(|t: Vec<u8>| t@),
            i <= texts@.len(),
            out@ == prefixed_all(s.take(i as int)),
        decreases texts@.len() - i,
    {
        append_u64(&mut out, texts[i].len() as u64);
        append(&mut out, texts[i].as_slice());
        proof {
            lemma_prefixed_push(s.take(i as int), s[i as int]);
            assert(s.take(i + 1) =~= s.take(i as int).push(s[i as int]));
        }
        i = i + 1;
    }
    proof { assert(s.take(texts@.len() as int) =~= s); }
    out
}

proof fn lemma_prefixed_push(s: Seq<Seq<u8>>, x: Seq<u8>)
    ensures
        prefixed_all(s.push(x)) == prefixed_all(s) + prefixed(x),
    decreases s.len(),
{
    assert(s.push(x)[0] == if s.len() == 0 { x } else { s[0] });
    if s.len() == 0 {
        assert(s.push(x).drop_first() =~= Seq::<Seq<u8>>::empty());
        assert(prefixed_all(s.push(x)) == prefixed(x) + prefixed_all(s.push(x).drop_first()));
        assert(prefixed_all(Seq::<Seq<u8>>::empty()) == Seq::<u8>::empty());
        assert(prefixed_all(s.push(x)) =~= prefixed_all(s) + prefixed(x));
    } else {
        let t = s.drop_first();
        lemma_prefixed_push(t, x);
        assert(s.push(x).drop_first() =~= t.push(x));
        assert(prefixed_all(s.push(x)) == prefixed(s[0]) + prefixed_all(t.push(x)));
        assert(prefixed_all(s) == prefixed(s[0]) + prefixed_all(t));
        assert(prefixed(s[0]) + (prefixed_all(t) + prefixed(x)) =~= (prefixed(s[0]) + prefixed_all(t)) + prefixed(x));
    }
}

proof fn lemma_times_push(rows: Seq<RowToWriteView>, r: RowToWriteView)
    ensures
        times_bytes(rows.push(r)) == times_bytes(rows) + le_bytes(r.timestamp as u64),
    decreases rows.len(),
{
    assert(rows.push(r)[0] == if rows.len() == 0 { r } else { rows[0] });
    if rows.len() == 0 {
        assert(rows.push(r).drop_first() =~= Seq::<RowToWriteView>::empty());
        assert(times_bytes(rows.push(r)) == le_bytes(r.timestamp as u64) + times_bytes(rows.push(r).drop_first()));
        assert(times_bytes(Seq::<RowToWriteView>::empty()) == Seq::<u8>::empty());
        assert(times_bytes(rows.push(r)) =~= times_bytes(rows) + le_bytes(r.timestamp as u64));
    } else {
        let t = rows.drop_first();
        lemma_times_push(t, r);
        assert(rows.push(r).drop_first() =~= t.push(r));
        let h = le_bytes(rows[0].timestamp as u64);
        assert(times_bytes(rows.push(r)) == h + times_bytes(t.push(r)));
        assert(times_bytes(rows) == h + times_bytes(t));
        assert(h + (times_bytes(t) + le_bytes(r.timestamp as u64)) =~= (h + times_bytes(t)) + le_bytes(r.timestamp as u64));
    }
}

proof fn lemma_entries_push(cols: Seq<(u32, Seq<u8>)>, c: (u32, Seq<u8>))
    ensures
        column_entries(cols.push(c)) == column_entries(cols) + le4(c.0) + prefixed(c.1),
    decreases cols.len(),
{
    assert(cols.push(c)[0] == if cols.len() == 0 { c } else { cols[0] });
    if cols.len() == 0 {
        assert(cols.push(c).drop_first() =~= Seq::<(u32, Seq<u8>)>::empty());
        assert(column_entries(cols.push(c)) == le4(c.0) + prefixed(c.1) + column_entries(cols.push(c).drop_first()));
        assert(column_entries(Seq::<(u32, Seq<u8>)>::empty()) == Seq::<u8>::empty());
        assert(column_entries(cols.push(c)) =~= column_entries(cols) + le4(c.0) + prefixed(c.1));
    } else {
        let t = cols.drop_first();
        lemma_entries_push(t, c);
        assert(cols.push(c).drop_first() =~= t.push(c));
        let h = le4(cols[0].0) + prefixed(cols[0].1);
        assert(column_entries(cols.push(c)) == h + column_entries(t.push(c)));
        assert(column_entries(cols) == h + column_entries(t));
        assert(h + (column_entries(t) + le4(c.0) + prefixed(c.1)) =~= (h + column_entries(t)) + le4(c.0) + prefixed(c.1));
    }
}

/// The abstract values of header columns.
pub open spec fn columns_view(cols: Seq<(u32, String)>) -> Seq<(u32, Seq<u8>)> {
    cols.map_values(|c: (u32, String)| (c.0, vstd::utf8::encode_utf8(c.1@)))
}

/// The abstract values of rows to write.
pub open spec fn rows_to_write(rows: Seq<RowToWrite>) -> Seq<RowToWriteView> {
    rows.map_values(|r: RowToWrite| r@)
}

/// The bytes of a file of rows, with the given columns (id and name) in
/// its header: what `decode_data` reads back.
pub fn encode_rows(columns: &Vec<(u32, String)>, rows: &Vec<RowToWrite>) -> (r: Vec<u8>)
    requires
        file_bytes(columns_view(columns@), rows_to_write(rows@)).len() <= usize::MAX,
    ensures
        r@ == file_bytes(columns_view(columns@), rows_to_write(rows@)),
{
    let ghost cv = columns_view(columns@);
    let ghost rv = rows_to_write(rows@);
    let mut out: Vec<u8> = Vec::new();
    append_u64(&mut out, 1);
    append_u64(&mut out, columns.len() as u64);
    let ghost start = out@;
    let mut i: usize = 0;
    while i < columns.len()
        invariant
            cv == columns_view(columns@),
            i <= columns@.len(),
            out@ == start + column_entries(cv.take(i as int)),
        decreases columns@.len() - i,
    {
        let name = columns[i].1.as_str().as_bytes();
        append_u32(&mut out, columns[i].0);
        append_u64(&mut out, name.len() as u64);
        append(&mut out, name);
        proof {
            lemma_entries_push(cv.take(i as int), cv[i as int]);
            assert(cv.take(i + 1) =~= cv.take(i as int).push(cv[i as int]));
            assert(out@ =~= start + column_entries(cv.take(i + 1)));
        }
        i = i + 1;
    }
    proof { assert(cv.take(columns@.len() as int) =~= cv); }
    append_u64(&mut out, 0);
    // the timestamps
    let mut times: Vec<u8> = Vec::new();
    let mut tags: Vec<Vec<u8>> = Vec::new();
    let mut fields: Vec<Vec<u8>> = Vec::new();
    let mut k: usize = 0;
    while k < rows.len()
        invariant
            rv == rows_to_write(rows@),
            k <= rows@.len(),
            times@ == times_bytes(rv.take(k as int)),
            tags@.map_values(|t: Vec<u8>| t@) == tag_texts(rv.take(k as int)),
            fields@.map_values(|t: Vec<u8>| t@) == field_texts(rv.take(k as int)),
        decreases rows@.len() - k,
    {
        append_u64(&mut times, rows[k].timestamp as u64);
        let mut t: Vec<u8> = Vec::new();
        append(&mut t, rows[k].tags_json.as_slice());
        let mut f: Vec<u8> = Vec::new();
        append(&mut f, rows[k].fields_json.as_slice());
        proof { assert(t@ =~= rows[k as int].tags_json@); assert(f@ =~= rows[k as int].fields_json@); }
        let ghost tv0 = tags@.map_values(|t: Vec<u8>| t@);
        let ghost fv0 = fields@.map_values(|t: Vec<u8>| t@);
        let ghost tnew = t@;
        let ghost fnew = f@;
        tags.push(t);
        fields.push(f);
        proof {
            lemma_times_push(rv.take(k as int), rv[k as int]);
            assert(rv.take(k + 1) =~= rv.take(k as int).push(rv[k as int]));
            assert(rv[k as int] == rows@[k as int]@);
            assert(tags@.map_values(|t: Vec<u8>| t@) =~= tv0.push(tnew));
            assert(fields@.map_values(|t: Vec<u8>| t@) =~= fv0.push(fnew));
            assert(tag_texts(rv.take(k + 1)) =~= tag_texts(rv.take(k as int)).push(rv[k as int].tags_json));
            assert(field_texts(rv.take(k + 1)) =~= field_texts(rv.take(k as int)).push(rv[k as int].fields_json));
        }
        k = k + 1;
    }
    proof { assert(rv.take(rows@.len() as int) =~= rv); }
    let tag_col = prefixed_column(&tags);
    let field_col = prefixed_column(&fields);
    append_u32(&mut out, 0);
    append_u64(&mut out, times.len() as u64);
    append(&mut out, times.as_slice());
    append_u32(&mut out, 1);
    append_u64(&mut out, tag_col.len() as u64);
    append(&mut out, tag_col.as_slice());
    append_u32(&mut out, 2);
    append_u64(&mut out, field_col.len() as u64);
    append(&mut out, field_col.as_slice());
    proof { assert(out@ =~= file_bytes(cv, rv)); }
    out
}

} // verus!
