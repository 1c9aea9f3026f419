//! The engine's columnar files: the list of their metadata, and the layout
//! of the rows that a file's bytes hold.
//!
//! A file's bytes: the table id and the number of columns (`u64` each,
//! little-endian); for each column its id (`u32`), the length of its name
//! (`u64`) and the name; a `u64` that must be zero; then blocks of a column
//! id (`u32`), a length (`u64`) and the column's bytes. Column 0 holds the
//! timestamps (`i64` each); columns 1 and 2 hold, for each row, a
//! length-prefixed JSON text of its tags and of its fields. Offsets are
//! compared without overflow.

use vstd::prelude::*;
use crate::prometheus::{le_u64, read_u64_le};
use crate::config::TsspConfig;
use crate::text::{hex_char, join_path, path_join, push_char};
use crate::tssp::{duplicate_files, file_views, FileMeta, FileMetaView};

verus! {

/// Four bytes read as a little-endian `u32`.
pub open spec fn le_u32(b: Seq<u8>) -> u32 {
    (b[0] as u32) | ((b[1] as u32) << 8) | ((b[2] as u32) << 16) | ((b[3] as u32) << 24)
}

/// The `u64` at an offset.
pub open spec fn u64_at(d: Seq<u8>, off: int) -> u64 {
    le_u64(d.subrange(off, off + 8))
}

/// Where the column entries of the header end, from `off` with `left` of
/// them still to read: an entry whose id and length do not fit ends them,
/// and so does one whose name does not fit (after its id and length).
pub open spec fn header_end(d: Seq<u8>, off: int, left: nat) -> int
    decreases left,
{
    if left == 0 || off + 12 > d.len() {
        off
    } else {
        let n = u64_at(d, off + 4) as usize;
        if off + 12 + n > d.len() {
            off + 12
        } else {
            header_end(d, off + 12 + n, (left - 1) as nat)
        }
    }
}

/// The column blocks from `off`, added to `acc`: a later block of a column
/// replaces an earlier one; a block that does not fit ends them.
pub open spec fn blocks(d: Seq<u8>, off: int, acc: Map<u32, Seq<u8>>) -> Map<u32, Seq<u8>>
    decreases d.len() - off,
{
    if off < 0 || off + 12 > d.len() {
        acc
    } else {
        let id = le_u32(d.subrange(off, off + 4));
        let n = u64_at(d, off + 4) as usize;
        if off + 12 + n > d.len() {
            acc
        } else {
            blocks(d, off + 12 + n, acc.insert(id, d.subrange(off + 12, off + 12 + n)))
        }
    }
}

/// The offset of the length-prefixed entry that `k` entries after `off`
/// begins; an entry whose length does not fit ends the walk.
pub open spec fn skip_entries(b: Seq<u8>, off: int, k: nat) -> int
    decreases k,
{
    if k == 0 || off + 8 > b.len() {
        off
    } else {
        skip_entries(b, off + 8 + (u64_at(b, off) as usize), (k - 1) as nat)
    }
}

/// The `i`-th length-prefixed entry of a column, where it fits.
pub open spec fn entry(b: Seq<u8>, i: nat) -> Option<Seq<u8>> {
    let o = skip_entries(b, 0, i);
    if o + 8 <= b.len() {
        let n = u64_at(b, o) as usize;
        if o + 8 + n <= b.len() { Some(b.subrange(o + 8, o + 8 + n)) } else { None }
    } else {
        None
    }
}

/// A row of a file: its timestamp and the JSON texts of its tags and
/// fields, where their column holds them.
#[derive(Debug, Clone)]
pub struct DecodedRow {
    pub timestamp: i64,
    pub tags_json: Option<Vec<u8>>,
    pub fields_json: Option<Vec<u8>>,
}

/// The abstract value of a decoded row.
pub struct DecodedRowView {
    pub timestamp: i64,
    pub tags_json: Option<Seq<u8>>,
    pub fields_json: Option<Seq<u8>>,
}

/// The bytes of an optional byte list.
pub open spec fn opt_bytes(o: Option<Vec<u8>>) -> Option<Seq<u8>> {
    match o {
        Some(v) => Some(v@),
        None => None,
    }
}

impl View for DecodedRow {
    type V = DecodedRowView;

    open spec fn view(&self) -> DecodedRowView {
        DecodedRowView { timestamp: self.timestamp, tags_json: opt_bytes(self.tags_json), fields_json: opt_bytes(self.fields_json) }
    }
}

/// The entry of a row in an optional column.
pub open spec fn column_entry(col: Option<Seq<u8>>, i: nat) -> Option<Seq<u8>> {
    match col {
        Some(b) => entry(b, i),
        None => None,
    }
}

/// The rows that a file's bytes hold; `None` where they are too short for
/// the header that is read without checks (the table id, the column count,
/// the zero after the columns).
pub open spec fn decoded(d: Seq<u8>) -> Option<Seq<DecodedRowView>> {
    if d.len() < 16 {
        None
    } else {
        let h = header_end(d, 16, ((u64_at(d, 8) as usize) as nat));
        if h + 8 > d.len() {
            None
        } else if u64_at(d, h) != 0 {
            Some(Seq::empty())
        } else {
            let cols = blocks(d, h + 8, Map::empty());
            if !cols.contains_key(0) {
                Some(Seq::empty())
            } else {
                let times = cols[0];
                let tags = if cols.contains_key(1) { Some(cols[1]) } else { None };
                let fields = if cols.contains_key(2) { Some(cols[2]) } else { None };
                Some(Seq::new((times.len() / 8) as nat, |i: int| DecodedRowView {
                    timestamp: u64_at(times, 8 * i) as i64,
                    tags_json: column_entry(tags, i as nat),
                    fields_json: column_entry(fields, i as nat),
                }))
            }
        }
    }
}

proof fn lemma_skip_past(b: Seq<u8>, off: int, k: nat)
    requires
        off + 8 > b.len(),
    ensures
        skip_entries(b, off, k) == off,
    decreases k,
{
}

fn read_u32_le(data: &[u8], off: usize) -> (r: u32)
    requires
        off + 4 <= data@.len(),
    ensures
        r == le_u32(data@.subrange(off as int, off + 4)),
{
    (data[off] as u32) | ((data[off + 1] as u32) << 8) | ((data[off + 2] as u32) << 16) | ((data[off + 3] as u32) << 24)
}

pub(crate) fn copy_range(d: &[u8], from: usize, to: usize) -> (r: Vec<u8>)
    requires
        from <= to <= d@.len(),
    ensures
        r@ == d@.subrange(from as int, to as int),
{
    let mut v: Vec<u8> = Vec::new();
    let mut i: usize = from;
    while i < to
        invariant
            from <= i <= to <= d@.len(),
            v@ =~= d@.subrange(from as int, i as int),
        decreases to - i,
    {
        v.push(d[i]);
        i = i + 1;
    }
    v
}

fn entry_of(b: &[u8], i: usize) -> (r: Option<Vec<u8>>)
    ensures
        opt_bytes(r) == entry(b@, i as nat),
{
    let len = b.len();
    let mut off: usize = 0;
    let mut k: usize = 0;
    while k < i && len - off >= 8
        invariant
            len == b@.len(),
            k <= i,
            off <= len,
            skip_entries(b@, 0, i as nat) == skip_entries(b@, off as int, (i - k) as nat),
        decreases i - k,
    {
        let n = read_u64_le(b, off) as usize;
        if n > len - off - 8 {
            proof {
                lemma_skip_past(b@, off + 8 + n, (i - k - 1) as nat);
            }
            return None;
        }
        off = off + 8 + n;
        k = k + 1;
    }
    proof {
        if k < i {
            lemma_skip_past(b@, off as int, (i - k) as nat);
        }
    }
    if len - off < 8 {
        return None;
    }
    let n = read_u64_le(b, off) as usize;
    if n > len - off - 8 {
        return None;
    }
    Some(copy_range(b, off + 8, off + 8 + n))
}


/// The optional bytes that a map holds for a key.
pub open spec fn held(m: Map<u32, Seq<u8>>, k: u32) -> Option<Seq<u8>> {
    if m.contains_key(k) { Some(m[k]) } else { None }
}

fn header_end_of(d: &[u8], count: usize) -> (r: usize)
    requires
        16 <= d@.len(),
    ensures
        r as int == header_end(d@, 16, count as nat),
        r <= d@.len(),
{
    let len = d.len();
    let mut off: usize = 16;
    let mut left: usize = count;
    let mut done = false;
    while !done && left > 0 && len - off >= 12
        invariant
            len == d@.len(),
            off <= len,
            header_end(d@, 16, count as nat) == if done { off as int } else { header_end(d@, off as int, left as nat) },
        decreases left as int + (if done { 0int } else { 1int }),
    {
        let n = read_u64_le(d, off + 4) as usize;
        if n > len - off - 12 {
            off = off + 12;
            done = true;
        } else {
            off = off + 12 + n;
            left = left - 1;
        }
    }
    off
}

/// Reads the rows of a file's bytes; `None` where the bytes are too short
/// for the header.
pub fn decode_data(d: &[u8]) -> (r: Option<Vec<DecodedRow>>)
    ensures
        match decoded(d@) {
            None => r is None,
            Some(rows) => r matches Some(v) && v@.map_values(|x: DecodedRow| x@) == rows,
        },
{
    let len = d.len();
    if len < 16 {
        return None;
    }
    let count = read_u64_le(d, 8) as usize;
    let h = header_end_of(d, count);
    if len - h < 8 {
        return None;
    }
    if read_u64_le(d, h) != 0 {
        return Some(Vec::new());
    }
    let mut col0: Option<Vec<u8>> = None;
    let mut col1: Option<Vec<u8>> = None;
    let mut col2: Option<Vec<u8>> = None;
    let ghost mut acc: Map<u32, Seq<u8>> = Map::empty();
    let mut off: usize = h + 8;
    let mut done = false;
    while !done && len - off >= 12
        invariant
            len == d@.len(),
            h + 8 <= off <= len,
            blocks(d@, h + 8, Map::empty()) == if done { acc } else { blocks(d@, off as int, acc) },
            opt_bytes(col0) == held(acc, 0),
            opt_bytes(col1) == held(acc, 1),
            opt_bytes(col2) == held(acc, 2),
        decreases (len - off) as int + (if done { 0int } else { 1int }),
    {
        let id = read_u32_le(d, off);
        let n = read_u64_le(d, off + 4) as usize;
        if n > len - off - 12 {
            done = true;
        } else {
            let block = copy_range(d, off + 12, off + 12 + n);
            proof { acc = acc.insert(id, block@); }
            if id == 0 {
                col0 = Some(block);
            } else if id == 1 {
                col1 = Some(block);
            } else if id == 2 {
                col2 = Some(block);
            }
            off = off + 12 + n;
        }
    }
    let ghost cols = blocks(d@, h + 8, Map::empty());
    proof { assert(cols == acc); }
    let times = match col0 {
        Some(t) => t,
        None => { return Some(Vec::new()); },
    };
    let mut rows: Vec<DecodedRow> = Vec::new();
    let tl = times.len();
    let row_count = tl / 8;
    let mut i: usize = 0;
    while i < row_count
        invariant
            tl == times@.len(),
            row_count == times@.len() / 8,
            i <= row_count,
            opt_bytes(col1) == held(cols, 1),
            opt_bytes(col2) == held(cols, 2),
            times@ == cols[0],
            cols.contains_key(0),
            decoded(d@) == Some(Seq::new(row_count as nat, |j: int| DecodedRowView {
                timestamp: u64_at(times@, 8 * j) as i64,
                tags_json: column_entry(held(cols, 1), j as nat),
                fields_json: column_entry(held(cols, 2), j as nat),
            })),
            rows@.map_values(|x: DecodedRow| x@) =~= Seq::new(i as nat, |j: int| DecodedRowView {
                timestamp: u64_at(times@, 8 * j) as i64,
                tags_json: column_entry(held(cols, 1), j as nat),
                fields_json: column_entry(held(cols, 2), j as nat),
            }),
        decreases row_count - i,
    {
        proof {
            assert(8 * i + 8 <= times@.len()) by (nonlinear_arith)
                requires
                    i < row_count,
                    row_count == times@.len() / 8,
            {}
        }
        let ts = read_u64_le(times.as_slice(), 8 * i) as i64;
        let tags_json = match &col1 {
            Some(b) => entry_of(b.as_slice(), i),
            None => None,
        };
        let fields_json = match &col2 {
            Some(b) => entry_of(b.as_slice(), i),
            None => None,
        };
        let row = DecodedRow { timestamp: ts, tags_json, fields_json };
        proof {
            assert(rows@.push(row).map_values(|x: DecodedRow| x@) =~= rows@.map_values(|x: DecodedRow| x@).push(row@));
        }
        rows.push(row);
        i = i + 1;
    }
    Some(rows)
}


/// The last `k` lower-case hexadecimal digits of a number, most
/// significant first.
pub open spec fn hex_digits(n: u64, k: nat) -> Seq<char>
    decreases k,
{
    if k == 0 {
        Seq::empty()
    } else {
        hex_digits(n / 16, (k - 1) as nat).push(hex_char((n % 16) as nat))
    }
}

/// A number in sixteen hexadecimal digits.
pub open spec fn hex16(n: u64) -> Seq<char> {
    hex_digits(n, 16)
}

pub(crate) fn append_hex(s: &mut String, n: u64, k: usize)
    ensures
        final(s)@ == old(s)@ + hex_digits(n, k as nat),
    decreases k,
{
    if k > 0 {
        append_hex(s, n / 16, k - 1);
        push_char(s, crate::text::nibble_to_char((n % 16) as u8));
        proof {
            assert(old(s)@ + hex_digits(n / 16, (k - 1) as nat) + seq![hex_char((n % 16) as nat)]
                =~= old(s)@ + hex_digits(n, k as nat));
        }
    } else {
        proof { assert(old(s)@ + Seq::<char>::empty() =~= old(s)@); }
    }
}

/// The name of a file's data: its id in sixteen hexadecimal digits.
pub open spec fn file_name(file_id: u64) -> Seq<char> {
    hex16(file_id) + ".tssp"@
}

/// Whether a file's time range meets `start..=end`.
pub open spec fn overlaps(f: FileMetaView, start: i64, end: i64) -> bool {
    !(f.max_time < start || f.min_time > end)
}

/// The files of a list that meet a time range, in order.
pub open spec fn overlapping(files: Seq<FileMetaView>, start: i64, end: i64) -> Seq<FileMetaView>
    decreases files.len(),
{
    if files.len() == 0 {
        Seq::empty()
    } else if overlaps(files.last(), start, end) {
        overlapping(files.drop_last(), start, end).push(files.last())
    } else {
        overlapping(files.drop_last(), start, end)
    }
}

/// The files of a list without those of an id, in order.
pub open spec fn without_file(files: Seq<FileMetaView>, file_id: u64) -> Seq<FileMetaView>
    decreases files.len(),
{
    if files.len() == 0 {
        Seq::empty()
    } else if files.last().file_id != file_id {
        without_file(files.drop_last(), file_id).push(files.last())
    } else {
        without_file(files.drop_last(), file_id)
    }
}

/// The engine's columnar files: where they are kept and their metadata,
/// in the order they were added.
pub struct TsspManager {
    pub data_dir: String,
    pub config: TsspConfig,
    pub file_metas: Vec<FileMeta>,
}

impl TsspManager {
    /// A manager of no files.
    pub fn new(data_dir: String, config: TsspConfig) -> (r: Self)
        ensures
            r.data_dir == data_dir,
            r.config == config,
            r.file_metas@.len() == 0,
    {
        TsspManager { data_dir, config, file_metas: Vec::new() }
    }

    /// Records a file; one with id 0 (no file written) is passed over.
    pub fn add_file_meta(&mut self, meta: FileMeta)
        ensures
            file_views(final(self).file_metas@) == if meta.file_id > 0 {
                file_views(old(self).file_metas@).push(meta@)
            } else {
                file_views(old(self).file_metas@)
            },
            final(self).data_dir == old(self).data_dir,
            final(self).config == old(self).config,
    {
        if meta.file_id > 0 {
            let ghost before = self.file_metas@;
            self.file_metas.push(meta);
            proof { assert(file_views(self.file_metas@) =~= file_views(before).push(meta@)); }
        }
    }

    /// Copies of the files' metadata, in order.
    pub fn get_file_metas(&self) -> (r: Vec<FileMeta>)
        ensures
            file_views(r@) == file_views(self.file_metas@),
    {
        duplicate_files(self.file_metas.as_slice())
    }

    /// The number of files.
    pub fn get_file_count(&self) -> (r: usize)
        ensures
            r == self.file_metas@.len(),
    {
        self.file_metas.len()
    }

    /// Where the data of a file is kept: its name under the data directory.
    pub fn file_path(&self, file_id: u64) -> (r: String)
        ensures
            r@ == path_join(self.data_dir@, file_name(file_id)),
    {
        let mut name = String::new();
        append_hex(&mut name, file_id, 16);
        proof { assert(Seq::<char>::empty() + hex16(file_id) =~= hex16(file_id)); }
        let mut part = name;
        crate::text::push_str(&mut part, ".tssp");
        join_path(self.data_dir.as_str(), part.as_str())
    }

    /// Forgets the metadata of a file.
    pub fn forget_file(&mut self, file_id: u64)
        ensures
            file_views(final(self).file_metas@) == without_file(file_views(old(self).file_metas@), file_id),
            final(self).data_dir == old(self).data_dir,
            final(self).config == old(self).config,
    {
        let mut kept: Vec<FileMeta> = Vec::new();
        let mut i: usize = 0;
        while i < self.file_metas.len()
            invariant
                i <= self.file_metas@.len(),
                file_views(kept@) == without_file(file_views(self.file_metas@).take(i as int), file_id),
            decreases self.file_metas@.len() - i,
        {
            proof {
                let t = file_views(self.file_metas@).take(i + 1);
                assert(t.drop_last() =~= file_views(self.file_metas@).take(i as int));
                assert(t.last() == self.file_metas@[i as int]@);
            }
            if self.file_metas[i].file_id != file_id {
                let f = self.file_metas[i].duplicate();
                proof { assert(file_views(kept@.push(f)) =~= file_views(kept@).push(f@)); }
                kept.push(f);
            }
            i = i + 1;
        }
        proof { assert(file_views(self.file_metas@).take(self.file_metas@.len() as int) =~= file_views(self.file_metas@)); }
        self.file_metas = kept;
    }

    /// Copies of the metadata of the files that meet a time range, in order.
    pub fn files_in_range(&self, start: i64, end: i64) -> (r: Vec<FileMeta>)
        ensures
            file_views(r@) == overlapping(file_views(self.file_metas@), start, end),
    {
        let mut out: Vec<FileMeta> = Vec::new();
        let mut i: usize = 0;
        while i < self.file_metas.len()
            invariant
                i <= self.file_metas@.len(),
                file_views(out@) == overlapping(file_views(self.file_metas@).take(i as int), start, end),
            decreases self.file_metas@.len() - i,
        {
            proof {
                let t = file_views(self.file_metas@).take(i + 1);
                assert(t.drop_last() =~= file_views(self.file_metas@).take(i as int));
                assert(t.last() == self.file_metas@[i as int]@);
            }
            let f = &self.file_metas[i];
            if !(f.max_time < start || f.min_time > end) {
                let c = f.duplicate();
                proof { assert(file_views(out@.push(c)) =~= file_views(out@).push(c@)); }
                out.push(c);
            }
            i = i + 1;
        }
        proof { assert(file_views(self.file_metas@).take(self.file_metas@.len() as int) =~= file_views(self.file_metas@)); }
        out
    }

    /// Whether there are enough files to compact: two or more.
    pub fn should_compact(&self) -> (r: bool)
        ensures
            r == (self.file_metas@.len() >= 2),
    {
        self.file_metas.len() >= 2
    }
}

} // verus!
