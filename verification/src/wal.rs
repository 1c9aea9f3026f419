//! The write-ahead log's records and files: a record is its length (`u32`,
//! big-endian) and its bytes; a log file is named by its id in sixteen
//! hexadecimal digits with the extension `wal`.

use vstd::prelude::*;
use vstd::string::*;
use byteorder::{BigEndian, ByteOrder};
use crate::line_protocol::{char_rpos, rfind_char};
use crate::tssp_manager::{append_hex, hex16};
use crate::line_protocol::strings;
use crate::text::push_str;

verus! {

/// Where a batch was written in the log.
#[derive(Debug, Clone)]
pub struct WalEntry {
    pub file_id: u64,
    pub offset: u64,
    pub size: u32,
}

/// Four bytes, most significant first.
pub open spec fn be_bytes(n: u32) -> Seq<u8> {
    seq![(n >> 24u32) as u8, ((n >> 16u32) & 0xff) as u8, ((n >> 8u32) & 0xff) as u8, (n & 0xff) as u8]
}

/// Four bytes read most significant first.
pub open spec fn be_u32(b: Seq<u8>) -> u32 {
    ((b[0] as u32) << 24u32) | ((b[1] as u32) << 16u32) | ((b[2] as u32) << 8u32) | (b[3] as u32)
}

/// `BigEndian::write_u32` of byteorder: the four big-endian bytes of `n`
/// into the start of a buffer of four.
#[verifier::external_body]
fn write_be_u32(buf: &mut [u8; 4], n: u32)
    ensures
        final(buf)@ == be_bytes(n),
{
    BigEndian::write_u32(buf, n);
}

/// A record of the log: the length of the bytes, cut to 32 bits, then the
/// bytes.
pub open spec fn frame(data: Seq<u8>) -> Seq<u8> {
    be_bytes(data.len() as u32) + data
}

/// Frames the bytes of a batch as a record.
pub fn frame_record(data: &[u8]) -> (r: Vec<u8>)
    ensures
        r@ == frame(data@),
{
    let mut head: [u8; 4] = [0u8; 4];
    write_be_u32(&mut head, data.len() as u32);
    let mut v: Vec<u8> = Vec::new();
    v.push(head[0]);
    v.push(head[1]);
    v.push(head[2]);
    v.push(head[3]);
    let mut i: usize = 0;
    while i < data.len()
        invariant
            i <= data@.len(),
            head@ == be_bytes(data@.len() as u32),
            v@ =~= head@ + data@.take(i as int),
        decreases data@.len() - i,
    {
        v.push(data[i]);
        i = i + 1;
    }
    proof { assert(data@.take(data@.len() as int) =~= data@); }
    v
}

/// The records of a log's bytes from `off`, and whether the bytes end
/// inside a record: reading stops at the end, or at a record of length 0.
pub open spec fn records_from(d: Seq<u8>, off: int) -> (Seq<Seq<u8>>, bool)
    decreases d.len() - off,
{
    if off < 0 || off >= d.len() {
        (Seq::empty(), false)
    } else if off + 4 > d.len() {
        (Seq::empty(), true)
    } else {
        let n = be_u32(d.subrange(off, off + 4));
        if n == 0 {
            (Seq::empty(), false)
        } else if off + 4 + n > d.len() {
            (Seq::empty(), true)
        } else {
            let rest = records_from(d, off + 4 + n);
            (seq![d.subrange(off + 4, off + 4 + n)] + rest.0, rest.1)
        }
    }
}

fn read_be_u32(d: &[u8], off: usize) -> (r: u32)
    requires
        off + 4 <= d@.len(),
    ensures
        r == be_u32(d@.subrange(off as int, off + 4)),
{
    ((d[off] as u32) << 24u32) | ((d[off + 1] as u32) << 16u32) | ((d[off + 2] as u32) << 8u32) | (d[off + 3] as u32)
}

/// The records of a log file's bytes, and whether the bytes end inside a
/// record.
pub fn split_records(d: &[u8]) -> (r: (Vec<Vec<u8>>, bool))
    ensures
        r.0@.map_values(|v: Vec<u8>| v@) == records_from(d@, 0).0,
        r.1 == records_from(d@, 0).1,
{
    let len = d.len();
    let mut out: Vec<Vec<u8>> = Vec::new();
    let mut off: usize = 0;
    let mut truncated = false;
    let mut done = false;
    proof { assert(out@.map_values(|v: Vec<u8>| v@) + records_from(d@, 0).0 =~= records_from(d@, 0).0); }
    while !done && off < len
        invariant
            len == d@.len(),
            off <= len,
            done ==> out@.map_values(|v: Vec<u8>| v@) == records_from(d@, 0).0 && truncated == records_from(d@, 0).1,
            !done ==> out@.map_values(|v: Vec<u8>| v@) + records_from(d@, off as int).0 == records_from(d@, 0).0
                && records_from(d@, off as int).1 == records_from(d@, 0).1 && !truncated,
        decreases (len - off) as int + (if done { 0int } else { 1int }),
    {
        let ghost acc = out@.map_values(|v: Vec<u8>| v@);
        if len - off < 4 {
            proof { assert(acc + Seq::<Seq<u8>>::empty() =~= acc); }
            truncated = true;
            done = true;
        } else {
            let n = read_be_u32(d, off);
            if n == 0 {
                proof { assert(acc + Seq::<Seq<u8>>::empty() =~= acc); }
                done = true;
            } else if (n as usize) > len - off - 4 {
                proof { assert(acc + Seq::<Seq<u8>>::empty() =~= acc); }
                truncated = true;
                done = true;
            } else {
                let rec = crate::tssp_manager::copy_range(d, off + 4, off + 4 + n as usize);
                proof {
                    let rest = records_from(d@, off + 4 + n);
                    assert(out@.push(rec).map_values(|v: Vec<u8>| v@) =~= acc.push(rec@));
                    assert(acc.push(rec@) + rest.0 =~= acc + (seq![rec@] + rest.0));
                }
                out.push(rec);
                off = off + 4 + n as usize;
            }
        }
    }
    proof {
        if !done {
            assert(out@.map_values(|v: Vec<u8>| v@) + Seq::<Seq<u8>>::empty() =~= out@.map_values(|v: Vec<u8>| v@));
        }
    }
    (out, truncated)
}

/// The name of a log file.
pub open spec fn wal_file_name(file_id: u64) -> Seq<char> {
    hex16(file_id) + ".wal"@
}

/// The id of a log file by its name: the part before the last `.` (which
/// must not be the first character), read as a hexadecimal number, where
/// the part after it is `wal`.
pub open spec fn wal_id_of(name: Seq<char>) -> Option<u64> {
    match char_rpos(name, '.') {
        Some(p) => if p > 0 && name.subrange(p + 1, name.len() as int) == "wal"@ {
            crate::wal::hex_u64(name.subrange(0, p))
        } else {
            None
        },
        None => None,
    }
}

/// The value of a hexadecimal digit.
pub open spec fn hex_digit_value(c: char) -> Option<int> {
    if '0' <= c <= '9' {
        Some(c as int - '0' as int)
    } else if 'a' <= c <= 'f' {
        Some(c as int - 'a' as int + 10)
    } else if 'A' <= c <= 'F' {
        Some(c as int - 'A' as int + 10)
    } else {
        None
    }
}

/// The value of hexadecimal digits, most significant first.
pub open spec fn hex_value(s: Seq<char>) -> Option<int>
    decreases s.len(),
{
    if s.len() == 0 {
        Some(0)
    } else {
        match (hex_value(s.drop_last()), hex_digit_value(s.last())) {
            (Some(v), Some(d)) => Some(v * 16 + d),
            _ => None,
        }
    }
}

/// What `u64::from_str_radix(_, 16)` reads: an optional `+`, then one or
/// more hexadecimal digits whose value fits.
pub open spec fn hex_u64(s: Seq<char>) -> Option<u64> {
    let body = if s.len() > 0 && s[0] == '+' { s.skip(1) } else { s };
    if body.len() == 0 {
        None
    } else {
        match hex_value(body) {
            Some(v) => if v <= u64::MAX { Some(v as u64) } else { None },
            None => None,
        }
    }
}


proof fn lemma_hex_grows(s: Seq<char>, k: int)
    requires
        0 <= k <= s.len(),
        hex_value(s.take(k)) is Some,
        hex_value(s) is Some,
    ensures
        hex_value(s).unwrap() >= hex_value(s.take(k)).unwrap(),
        hex_value(s.take(k)).unwrap() >= 0,
    decreases s.len(),
{
    if k < s.len() {
        assert(s.drop_last().take(k) =~= s.take(k));
        lemma_hex_grows(s.drop_last(), k);
    } else {
        assert(s.take(k) =~= s);
        lemma_hex_nonneg(s);
    }
}

proof fn lemma_hex_nonneg(s: Seq<char>)
    requires
        hex_value(s) is Some,
    ensures
        hex_value(s).unwrap() >= 0,
    decreases s.len(),
{
    if s.len() > 0 {
        lemma_hex_nonneg(s.drop_last());
    }
}

fn digit_value(c: char) -> (r: Option<u64>)
    ensures
        match hex_digit_value(c) {
            Some(v) => r == Some(v as u64),
            None => r is None,
        },
{
    if '0' <= c && c <= '9' {
        Some((c as u32 - '0' as u32) as u64)
    } else if 'a' <= c && c <= 'f' {
        Some((c as u32 - 'a' as u32 + 10) as u64)
    } else if 'A' <= c && c <= 'F' {
        Some((c as u32 - 'A' as u32 + 10) as u64)
    } else {
        None
    }
}

/// Reads a hexadecimal number as `u64::from_str_radix(_, 16)` does.
pub fn parse_hex_u64(s: &str) -> (r: Option<u64>)
    ensures
        r == hex_u64(s@),
{
    let n = s.unicode_len();
    let from: usize = if n > 0 && s.get_char(0) == '+' { 1 } else { 0 };
    let ghost body = if s@.len() > 0 && s@[0] == '+' { s@.skip(1) } else { s@ };
    proof { assert(body =~= s@.subrange(from as int, n as int)); }
    if from == n {
        return None;
    }
    let mut acc: u64 = 0;
    let mut i: usize = from;
    proof { assert(body.take(0) =~= Seq::<char>::empty()); }
    while i < n
        invariant
            n == s@.len(),
            from <= i <= n,
            body =~= s@.subrange(from as int, n as int),
            body == (if s@.len() > 0 && s@[0] == '+' { s@.skip(1) } else { s@ }),
            from < n,
            hex_value(body.take(i - from)) == Some(acc as int),
        decreases n - i,
    {
        let c = s.get_char(i);
        proof {
            assert(body.take(i - from + 1).drop_last() =~= body.take(i - from));
            assert(body.take(i - from + 1).last() == c);
        }
        match digit_value(c) {
            None => {
                proof {
                    assert(hex_value(body.take(i - from + 1)) is None);
                    lemma_hex_none(body, i - from + 1);
                }
                return None;
            },
            Some(d) => {
                if acc > (u64::MAX - d) / 16 {
                    proof {
                        assert(acc * 16 + d > u64::MAX) by (nonlinear_arith)
                            requires acc > (u64::MAX - d) / 16, d < 16;
                        assert(hex_value(body.take(i - from + 1)) == Some(acc * 16 + d));
                        if hex_value(body) is Some {
                            lemma_hex_grows(body, i - from + 1);
                        }
                    }
                    return None;
                }
                proof {
                    assert(acc * 16 + d <= u64::MAX) by (nonlinear_arith)
                        requires acc <= (u64::MAX - d) / 16, d < 16;
                }
                acc = acc * 16 + d;
            },
        }
        i = i + 1;
    }
    proof { assert(body.take(n - from) =~= body); }
    Some(acc)
}

proof fn lemma_hex_none(s: Seq<char>, k: int)
    requires
        0 <= k <= s.len(),
        hex_value(s.take(k)) is None,
    ensures
        hex_value(s) is None,
    decreases s.len(),
{
    if k < s.len() {
        assert(s.drop_last().take(k) =~= s.take(k));
        lemma_hex_none(s.drop_last(), k);
    } else {
        assert(s.take(k) =~= s);
    }
}

/// The id of a log file by its name.
pub fn wal_file_id(name: &str) -> (r: Option<u64>)
    ensures
        r == wal_id_of(name@),
{
    match rfind_char(name, '.') {
        None => None,
        Some(p) => {
            let n = name.unicode_len();
            let ext = name.substring_char(p + 1, n);
            if p > 0 && crate::text::str_eq(ext, "wal") {
                parse_hex_u64(name.substring_char(0, p))
            } else {
                None
            }
        },
    }
}

/// The name of a log file.
pub fn wal_file_name_of(file_id: u64) -> (r: String)
    ensures
        r@ == wal_file_name(file_id),
{
    let mut s = String::new();
    append_hex(&mut s, file_id, 16);
    push_str(&mut s, ".wal");
    proof { assert(Seq::<char>::empty() + hex16(file_id) =~= hex16(file_id)); }
    s
}

/// The ids of the log files among names, in the order of the names.
pub open spec fn ids_of(names: Seq<Seq<char>>) -> Seq<u64>
    decreases names.len(),
{
    if names.len() == 0 {
        Seq::empty()
    } else {
        match wal_id_of(names.last()) {
            Some(id) => ids_of(names.drop_last()).push(id),
            None => ids_of(names.drop_last()),
        }
    }
}

/// Whether a list is in non-decreasing order.
pub open spec fn ascending(s: Seq<u64>) -> bool {
    forall|i: int, j: int| 0 <= i <= j < s.len() ==> s[i] <= s[j]
}

fn insert_ascending(v: &mut Vec<u64>, x: u64)
    requires
        ascending(old(v)@),
    ensures
        ascending(final(v)@),
        final(v)@.to_multiset() == old(v)@.to_multiset().insert(x),
{
    let mut k: usize = 0;
    while k < v.len() && v[k] <= x
        invariant
            k <= v@.len(),
            forall|i: int| 0 <= i < k ==> v@[i] <= x,
        decreases v@.len() - k,
    {
        k = k + 1;
    }
    let ghost before = v@;
    v.insert(k, x);
    proof {
        assert(v@ =~= before.take(k as int) + seq![x] + before.skip(k as int));
        assert(before =~= before.take(k as int) + before.skip(k as int));
        vstd::seq_lib::lemma_multiset_commutative(before.take(k as int), before.skip(k as int));
        vstd::seq_lib::lemma_multiset_commutative(before.take(k as int) + seq![x], before.skip(k as int));
        vstd::seq_lib::lemma_multiset_commutative(before.take(k as int), seq![x]);
        assert(seq![x].to_multiset() =~= vstd::multiset::Multiset::empty().insert(x)) by {
            broadcast use vstd::seq_lib::group_to_multiset_ensures;
            assert(seq![x] =~= Seq::<u64>::empty().push(x));
        }
        assert(v@.to_multiset() =~= before.to_multiset().insert(x));
    }
}

/// The ids of the log files among names, in ascending order.
pub fn wal_ids(names: &Vec<String>) -> (r: Vec<u64>)
    ensures
        ascending(r@),
        r@.to_multiset() == ids_of(strings(names@)).to_multiset(),
{
    let mut ids: Vec<u64> = Vec::new();
    let mut i: usize = 0;
    proof {
        broadcast use vstd::seq_lib::group_to_multiset_ensures;
        assert(strings(names@).take(0) =~= Seq::<Seq<char>>::empty());
    }
    while i < names.len()
        invariant
            i <= names@.len(),
            ascending(ids@),
            ids@.to_multiset() == ids_of(strings(names@).take(i as int)).to_multiset(),
        decreases names@.len() - i,
    {
        proof {
            let t = strings(names@).take(i + 1);
            assert(t.drop_last() =~= strings(names@).take(i as int));
            assert(t.last() == names@[i as int]@);
        }
        match wal_file_id(names[i].as_str()) {
            Some(id) => {
                insert_ascending(&mut ids, id);
                proof {
                    broadcast use vstd::seq_lib::group_to_multiset_ensures;
                    assert(ids_of(strings(names@).take(i + 1)) == ids_of(strings(names@).take(i as int)).push(id));
                }
            },
            None => {},
        }
        i = i + 1;
    }
    proof { assert(strings(names@).take(names@.len() as int) =~= strings(names@)); }
    ids
}


/// The records of a list, framed one after another.
pub open spec fn framed(recs: Seq<Seq<u8>>) -> Seq<u8>
    decreases recs.len(),
{
    if recs.len() == 0 {
        Seq::empty()
    } else {
        frame(recs[0]) + framed(recs.drop_first())
    }
}

proof fn lemma_be_round_trip(n: u32)
    ensures
        be_u32(be_bytes(n)) == n,
{
    let b = be_bytes(n);
    assert(b[0] == (n >> 24u32) as u8 && b[1] == ((n >> 16u32) & 0xff) as u8 && b[2] == ((n >> 8u32) & 0xff) as u8
        && b[3] == (n & 0xff) as u8);
    assert(((((n >> 24u32) as u8) as u32) << 24u32) | (((((n >> 16u32) & 0xff) as u8) as u32) << 16u32)
        | (((((n >> 8u32) & 0xff) as u8) as u32) << 8u32) | (((n & 0xff) as u8) as u32) == n) by (bit_vector);
}

proof fn lemma_records_shift(p: Seq<u8>, q: Seq<u8>, o: int)
    requires
        0 <= o,
    ensures
        records_from(p + q, p.len() + o) == records_from(q, o),
    decreases q.len() - o,
{
    let d = p + q;
    let off = p.len() + o;
    if o < q.len() && o + 4 <= q.len() {
        assert(d.subrange(off, off + 4) =~= q.subrange(o, o + 4));
        let n = be_u32(q.subrange(o, o + 4));
        if n != 0 && o + 4 + n <= q.len() {
            assert(d.subrange(off + 4, off + 4 + n) =~= q.subrange(o + 4, o + 4 + n));
            lemma_records_shift(p, q, o + 4 + n);
        }
    }
}

proof fn lemma_first_record(r0: Seq<u8>, tail: Seq<u8>)
    requires
        0 < r0.len() <= u32::MAX,
    ensures
        records_from(frame(r0) + tail, 0) == (seq![r0] + records_from(tail, 0).0, records_from(tail, 0).1),
{
    let f = frame(r0);
    let d = f + tail;
    let n = r0.len() as u32;
    assert(d.subrange(0, 4) =~= be_bytes(n));
    lemma_be_round_trip(n);
    assert(be_u32(d.subrange(0, 4)) == n);
    assert(d.subrange(4, 4 + r0.len() as int) =~= r0);
    lemma_records_shift(f, tail, 0);
}

/// Replaying the records written one after another gives back each of
/// them, in order, and finds the bytes complete; a record must not be empty
/// (an empty one ends the replay) and its length must fit in 32 bits.
pub proof fn law_replay_gives_back_records(recs: Seq<Seq<u8>>)
    requires
        forall|i: int| 0 <= i < recs.len() ==> 0 < (#[trigger] recs[i]).len() <= u32::MAX,
    ensures
        records_from(framed(recs), 0) == (recs, false),
    decreases recs.len(),
{
    if recs.len() > 0 {
        let rest = recs.drop_first();
        assert forall|i: int| 0 <= i < rest.len() implies 0 < (#[trigger] rest[i]).len() <= u32::MAX by {
            assert(rest[i] == recs[i + 1]);
        }
        law_replay_gives_back_records(rest);
        lemma_first_record(recs[0], framed(rest));
        assert(seq![recs[0]] + rest =~= recs);
    } else {
        assert(framed(recs) =~= Seq::<u8>::empty());
    }
}

} // verus!
