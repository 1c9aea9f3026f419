//! The in-memory side of the storage engine: the rows written since the
//! last flush, and what the engine remembers of the measurements, their
//! tag and field keys, and the series written. The service around it keeps
//! the write-ahead log and the files on disk, and turns rows to and from
//! their JSON texts.

use vstd::prelude::*;
use vstd::utf8::encode_utf8;
use vstd::string::*;
use crate::memtable::{compare_bytes, entries_view, encode_measurement_series_key, encode_series_key, in_scan, tags_sorted,
    tags_text, tags_view, KeyOrder, MemTable, RowKey, RowKeyView, RowValue, RowValueView};
use crate::error::Error;
use crate::line_protocol::strings;
use crate::text::str_eq;
use crate::bloom::{le_bytes, u64_le_bytes};
use std::collections::hash_map::DefaultHasher;
use std::hash::Hasher;
use vstd::std_specs::hash::DefaultHasherAdditionalSpecFns;

verus! {

/// A row to write: its tags, the names of its fields, and the JSON texts
/// of its tags and fields as the engine stores them.
#[derive(Debug, Clone)]
pub struct EngineRow {
    pub tags: Vec<(String, String)>,
    pub field_names: Vec<String>,
    pub tags_json: Vec<u8>,
    pub fields_json: Vec<u8>,
    pub timestamp: i64,
}

/// Whether `sk` is the series key of tags: their `key=value` texts in
/// order, joined by commas, as UTF-8.
pub open spec fn series_key_of(tags: Seq<(Seq<char>, Seq<char>)>, sk: Seq<u8>) -> bool {
    exists|sorted: Seq<(Seq<char>, Seq<char>)>| tags_sorted(sorted)
        && sorted.to_multiset() == tags.to_multiset()
        && sk == encode_utf8(#[trigger] tags_text(sorted))
}

/// Whether `sk` is the series key of a measurement's tags: the
/// measurement, `_`, and the tags' text in order, as UTF-8.
pub open spec fn measurement_series_key_of(m: Seq<char>, tags: Seq<(Seq<char>, Seq<char>)>, sk: Seq<u8>) -> bool {
    exists|sorted: Seq<(Seq<char>, Seq<char>)>| tags_sorted(sorted)
        && sorted.to_multiset() == tags.to_multiset()
        && sk == encode_utf8(m + "_"@ + #[trigger] tags_text(sorted))
}

/// The names a list holds.
pub open spec fn name_set(v: Seq<String>) -> Set<Seq<char>> {
    Set::new(|n: Seq<char>| exists|i: int| 0 <= i < v.len() && v[i]@ == n)
}

/// The pairs of names a list holds.
pub open spec fn pair_set(v: Seq<(String, String)>) -> Set<(Seq<char>, Seq<char>)> {
    Set::new(|p: (Seq<char>, Seq<char>)| exists|i: int| 0 <= i < v.len() && v[i].0@ == p.0 && v[i].1@ == p.1)
}

/// The byte strings a list holds.
pub open spec fn bytes_set(v: Seq<Vec<u8>>) -> Set<Seq<u8>> {
    Set::new(|b: Seq<u8>| exists|i: int| 0 <= i < v.len() && v[i]@ == b)
}

fn add_name(v: &mut Vec<String>, n: &str)
    ensures
        name_set(final(v)@) == name_set(old(v)@).insert(n@),
{
    let mut i: usize = 0;
    while i < v.len()
        invariant
            v@ == old(v)@,
            i <= v@.len(),
            forall|j: int| 0 <= j < i ==> v@[j]@ != n@,
        decreases v@.len() - i,
    {
        if str_eq(v[i].as_str(), n) {
            proof { assert(name_set(v@) =~= name_set(v@).insert(n@)); }
            return;
        }
        i = i + 1;
    }
    v.push(n.to_owned());
    proof {
        assert(name_set(v@) =~= name_set(old(v)@).insert(n@)) by {
            assert forall|x: Seq<char>| name_set(old(v)@).insert(n@).contains(x) implies name_set(v@).contains(x) by {
                if x != n@ {
                    let j = choose|j: int| 0 <= j < old(v)@.len() && old(v)@[j]@ == x;
                    assert(v@[j] == old(v)@[j]);
                } else {
                    assert(v@[old(v)@.len() as int]@ == n@);
                }
            }
            assert forall|x: Seq<char>| name_set(v@).contains(x) implies name_set(old(v)@).insert(n@).contains(x) by {
                let j = choose|j: int| 0 <= j < v@.len() && v@[j]@ == x;
                if j < old(v)@.len() { assert(old(v)@[j] == v@[j]); }
            }
        }
    }
}

fn add_pair(v: &mut Vec<(String, String)>, a: &str, b: &str)
    ensures
        pair_set(final(v)@) == pair_set(old(v)@).insert((a@, b@)),
{
    let mut i: usize = 0;
    while i < v.len()
        invariant
            v@ == old(v)@,
            i <= v@.len(),
            forall|j: int| 0 <= j < i ==> !(v@[j].0@ == a@ && v@[j].1@ == b@),
        decreases v@.len() - i,
    {
        if str_eq(v[i].0.as_str(), a) && str_eq(v[i].1.as_str(), b) {
            proof { assert(pair_set(v@) =~= pair_set(v@).insert((a@, b@))); }
            return;
        }
        i = i + 1;
    }
    v.push((a.to_owned(), b.to_owned()));
    proof {
        assert(pair_set(v@) =~= pair_set(old(v)@).insert((a@, b@))) by {
            assert forall|x: (Seq<char>, Seq<char>)| pair_set(old(v)@).insert((a@, b@)).contains(x) implies pair_set(v@).contains(x) by {
                if x != (a@, b@) {
                    let j = choose|j: int| 0 <= j < old(v)@.len() && old(v)@[j].0@ == x.0 && old(v)@[j].1@ == x.1;
                    assert(v@[j] == old(v)@[j]);
                } else {
                    assert(v@[old(v)@.len() as int].0@ == a@);
                }
            }
            assert forall|x: (Seq<char>, Seq<char>)| pair_set(v@).contains(x) implies pair_set(old(v)@).insert((a@, b@)).contains(x) by {
                let j = choose|j: int| 0 <= j < v@.len() && v@[j].0@ == x.0 && v@[j].1@ == x.1;
                if j < old(v)@.len() { assert(old(v)@[j] == v@[j]); }
            }
        }
    }
}

/// Whether no two byte strings of a list are the same.
pub open spec fn bytes_distinct(v: Seq<Vec<u8>>) -> bool {
    forall|i: int, j: int| 0 <= i < j < v.len() ==> #[trigger] v[i]@ != #[trigger] v[j]@
}

fn add_bytes(v: &mut Vec<Vec<u8>>, b: Vec<u8>)
    requires
        bytes_distinct(old(v)@),
    ensures
        bytes_set(final(v)@) == bytes_set(old(v)@).insert(b@),
        bytes_distinct(final(v)@),
{
    let mut i: usize = 0;
    while i < v.len()
        invariant
            v@ == old(v)@,
            bytes_distinct(old(v)@),
            i <= v@.len(),
            forall|j: int| 0 <= j < i ==> v@[j]@ != b@,
        decreases v@.len() - i,
    {
        match compare_bytes(v[i].as_slice(), b.as_slice()) {
            KeyOrder::Equal => {
                proof { assert(bytes_set(v@) =~= bytes_set(v@).insert(b@)); }
                return;
            },
            _ => {},
        }
        i = i + 1;
    }
    let ghost bv = b@;
    v.push(b);
    proof {
        assert forall|i: int, j: int| 0 <= i < j < v@.len() implies #[trigger] v@[i]@ != #[trigger] v@[j]@ by {
            if j < old(v)@.len() { assert(v@[i] == old(v)@[i] && v@[j] == old(v)@[j]); }
            else { assert(v@[i] == old(v)@[i]); }
        }
        assert(bytes_set(v@) =~= bytes_set(old(v)@).insert(bv)) by {
            assert forall|x: Seq<u8>| bytes_set(old(v)@).insert(bv).contains(x) implies bytes_set(v@).contains(x) by {
                if x != bv {
                    let j = choose|j: int| 0 <= j < old(v)@.len() && old(v)@[j]@ == x;
                    assert(v@[j] == old(v)@[j]);
                } else {
                    assert(v@[old(v)@.len() as int]@ == bv);
                }
            }
            assert forall|x: Seq<u8>| bytes_set(v@).contains(x) implies bytes_set(old(v)@).insert(bv).contains(x) by {
                let j = choose|j: int| 0 <= j < v@.len() && v@[j]@ == x;
                if j < old(v)@.len() { assert(old(v)@[j] == v@[j]); }
            }
        }
    }
}

/// The tag keys of a measurement's tags, as pairs with the measurement.
pub open spec fn tag_key_pairs(m: Seq<char>, tags: Seq<(Seq<char>, Seq<char>)>) -> Set<(Seq<char>, Seq<char>)> {
    Set::new(|p: (Seq<char>, Seq<char>)| p.0 == m && exists|i: int| 0 <= i < tags.len() && tags[i].0 == p.1)
}

/// The field names of a measurement, as pairs with the measurement.
pub open spec fn field_key_pairs(m: Seq<char>, names: Seq<Seq<char>>) -> Set<(Seq<char>, Seq<char>)> {
    Set::new(|p: (Seq<char>, Seq<char>)| p.0 == m && exists|i: int| 0 <= i < names.len() && names[i] == p.1)
}

/// The id of a series key: the default hasher's digest of the key as a
/// byte slice hashes itself, its length (eight little-endian bytes, as a
/// 64-bit little-endian machine writes a `usize`) and then its bytes.
pub open spec fn series_id_of(key: Seq<u8>) -> u64 {
    DefaultHasher::spec_finish(seq![le_bytes(key.len() as u64), key])
}

/// The id of a series key, computed.
pub fn series_id(key: &Vec<u8>) -> (r: u64)
    ensures
        r == series_id_of(key@),
{
    let mut hasher = DefaultHasher::new();
    let len = u64_le_bytes(key.len() as u64);
    hasher.write(&len);
    hasher.write(key.as_slice());
    proof { assert(hasher@ =~= seq![le_bytes(key@.len() as u64), key@]); }
    hasher.finish()
}

/// The tags given, or none.
pub open spec fn opt_tags(tags: Option<&Vec<(String, String)>>) -> Seq<(Seq<char>, Seq<char>)> {
    match tags {
        Some(t) => tags_view(t@),
        None => Seq::empty(),
    }
}

/// The ids a list holds.
pub open spec fn id_set(v: Seq<u64>) -> Set<u64> {
    Set::new(|x: u64| v.contains(x))
}

/// Whether no id comes twice in a list.
pub open spec fn ids_distinct(v: Seq<u64>) -> bool {
    forall|i: int, j: int| 0 <= i < j < v.len() ==> v[i] != v[j]
}

fn has_id(v: &Vec<u64>, id: u64) -> (r: bool)
    ensures
        r == v@.contains(id),
{
    let mut i: usize = 0;
    while i < v.len()
        invariant
            i <= v@.len(),
            forall|j: int| 0 <= j < i ==> v@[j] != id,
        decreases v@.len() - i,
    {
        if v[i] == id {
            proof { assert(v@[i as int] == id); }
            return true;
        }
        i = i + 1;
    }
    false
}

fn add_id(v: &mut Vec<u64>, id: u64)
    requires
        ids_distinct(old(v)@),
    ensures
        ids_distinct(final(v)@),
        id_set(final(v)@) == id_set(old(v)@).insert(id),
{
    if !has_id(v, id) {
        v.push(id);
        proof {
            assert(id_set(v@) =~= id_set(old(v)@).insert(id)) by {
                assert forall|x: u64| id_set(v@).contains(x) <==> id_set(old(v)@).insert(id).contains(x) by {
                    if old(v)@.contains(x) {
                        let j = choose|j: int| 0 <= j < old(v)@.len() && old(v)@[j] == x;
                        assert(v@[j] == x);
                    }
                    if v@.contains(x) && x != id {
                        let j = choose|j: int| 0 <= j < v@.len() && v@[j] == x;
                        assert(j < old(v)@.len());
                        assert(old(v)@[j] == x);
                    }
                    if x == id { assert(v@[old(v)@.len() as int] == id); }
                }
            }
            assert forall|i: int, j: int| 0 <= i < j < v@.len() implies v@[i] != v@[j] by {
                if j == old(v)@.len() { assert(old(v)@[i] == v@[i]); }
            }
        }
    } else {
        proof { assert(id_set(v@) =~= id_set(old(v)@).insert(id)); }
    }
}

fn remove_id(v: &mut Vec<u64>, id: u64)
    requires
        ids_distinct(old(v)@),
    ensures
        ids_distinct(final(v)@),
        id_set(final(v)@) == id_set(old(v)@).remove(id),
{
    let mut kept: Vec<u64> = Vec::new();
    let mut i: usize = 0;
    while i < v.len()
        invariant
            v@ == old(v)@,
            ids_distinct(old(v)@),
            i <= v@.len(),
            ids_distinct(kept@),
            forall|x: u64| #[trigger] kept@.contains(x) <==> (x != id && v@.take(i as int).contains(x)),
        decreases v@.len() - i,
    {
        let ghost before = kept@;
        proof { assert(v@.take(i + 1) =~= v@.take(i as int).push(v@[i as int])); }
        if v[i] != id {
            kept.push(v[i]);
            proof {
                assert forall|a: int, b: int| 0 <= a < b < kept@.len() implies kept@[a] != kept@[b] by {
                    if b == before.len() {
                        assert(before.contains(kept@[a])) by { assert(before[a] == kept@[a]); }
                        assert(v@.take(i as int).contains(kept@[a]));
                        let t0 = v@.take(i as int);
                        let j = choose|j: int| 0 <= j < t0.len() && t0[j] == kept@[a];
                        assert(v@[j] == kept@[a]);
                    }
                }
                assert forall|x: u64| #[trigger] kept@.contains(x) <==> (x != id && v@.take(i + 1).contains(x)) by {
                    if kept@.contains(x) {
                        let j = choose|j: int| 0 <= j < kept@.len() && kept@[j] == x;
                        if j < before.len() { assert(before[j] == x); assert(before.contains(x)); }
                        else { assert(v@.take(i + 1)[i as int] == x); }
                    }
                    let t1 = v@.take(i + 1);
                    if x != id && t1.contains(x) {
                        let j = choose|j: int| 0 <= j < t1.len() && t1[j] == x;
                        if j < i { assert(v@.take(i as int)[j] == x); assert(before.contains(x));
                            let k = choose|k: int| 0 <= k < before.len() && before[k] == x; assert(kept@[k] == x); }
                        else { assert(kept@[before.len() as int] == x); }
                    }
                }
            }
        } else {
            proof {
                assert forall|x: u64| #[trigger] kept@.contains(x) <==> (x != id && v@.take(i + 1).contains(x)) by {
                    let t1 = v@.take(i + 1);
                    if x != id && t1.contains(x) {
                        let j = choose|j: int| 0 <= j < t1.len() && t1[j] == x;
                        assert(j < i);
                        assert(v@.take(i as int)[j] == x);
                    }
                }
            }
        }
        i = i + 1;
    }
    proof {
        assert(v@.take(v@.len() as int) =~= v@);
        assert(id_set(kept@) =~= id_set(old(v)@).remove(id));
    }
    *v = kept;
}

/// The in-memory state of the engine.
pub struct Engine {
    memtable: MemTable,
    measurements: Vec<String>,
    tag_keys: Vec<(String, String)>,
    field_keys: Vec<(String, String)>,
    series_keys: Vec<Vec<u8>>,
    live_ids: Vec<u64>,
    deleted_ids: Vec<u64>,
}

impl Engine {
    #[verifier::type_invariant]
    closed spec fn inv(&self) -> bool {
        &&& bytes_distinct(self.series_keys@)
        &&& ids_distinct(self.live_ids@)
        &&& ids_distinct(self.deleted_ids@)
    }

    /// The ids of the series in the index.
    pub closed spec fn live(&self) -> Set<u64> {
        id_set(self.live_ids@)
    }

    /// The ids of the series dropped or deleted.
    pub closed spec fn deleted(&self) -> Set<u64> {
        id_set(self.deleted_ids@)
    }

    /// The rows written since the last flush, by key.
    pub closed spec fn rows(&self) -> Map<RowKeyView, RowValueView> {
        self.memtable.contents()
    }

    /// The measurements written to.
    pub closed spec fn spec_measurements(&self) -> Set<Seq<char>> {
        name_set(self.measurements@)
    }

    /// The tag keys written, with their measurements.
    pub closed spec fn spec_tag_keys(&self) -> Set<(Seq<char>, Seq<char>)> {
        pair_set(self.tag_keys@)
    }

    /// The field keys written, with their measurements.
    pub closed spec fn spec_field_keys(&self) -> Set<(Seq<char>, Seq<char>)> {
        pair_set(self.field_keys@)
    }

    /// The series keys written.
    pub closed spec fn series(&self) -> Set<Seq<u8>> {
        bytes_set(self.series_keys@)
    }

    /// The estimated size of the rows since the last flush.
    pub closed spec fn size_estimate(&self) -> u64 {
        self.memtable.size_estimate()
    }

    /// The size at which the rows ask to be flushed.
    pub closed spec fn size_limit(&self) -> u64 {
        self.memtable.size_limit()
    }

    /// An engine with nothing written, whose rows ask to be flushed at the
    /// given size.
    pub fn new(memtable_max_size: u64) -> (r: Self)
        ensures
            r.rows() == Map::<RowKeyView, RowValueView>::empty(),
            r.spec_measurements() == Set::<Seq<char>>::empty(),
            r.spec_tag_keys() == Set::<(Seq<char>, Seq<char>)>::empty(),
            r.spec_field_keys() == Set::<(Seq<char>, Seq<char>)>::empty(),
            r.series() == Set::<Seq<u8>>::empty(),
            r.live() == Set::<u64>::empty(),
            r.deleted() == Set::<u64>::empty(),
            r.size_estimate() == 0,
            r.size_limit() == memtable_max_size,
    {
        let r = Engine {
            memtable: MemTable::new(memtable_max_size),
            measurements: Vec::new(),
            tag_keys: Vec::new(),
            field_keys: Vec::new(),
            series_keys: Vec::new(),
            live_ids: Vec::new(),
            deleted_ids: Vec::new(),
        };
        assert(id_set(r.live_ids@) =~= Set::<u64>::empty());
        assert(id_set(r.deleted_ids@) =~= Set::<u64>::empty());
        assert(name_set(r.measurements@) =~= Set::<Seq<char>>::empty());
        assert(pair_set(r.tag_keys@) =~= Set::<(Seq<char>, Seq<char>)>::empty());
        assert(pair_set(r.field_keys@) =~= Set::<(Seq<char>, Seq<char>)>::empty());
        assert(bytes_set(r.series_keys@) =~= Set::<Seq<u8>>::empty());
        r
    }

    /// Writes a row to a measurement: the measurement, the row's tag keys
    /// and field names and its series are remembered, and the row is stored
    /// under its table, timestamp and series key, replacing a row of the
    /// same key. A row whose sizes add up past `u64::MAX` (which no row in
    /// memory reaches) is refused and nothing changes.
    pub fn write_row(&mut self, measurement: &str, row: &EngineRow) -> (r: Result<(), Error>)
        ensures
            exists|sk: Seq<u8>| #[trigger] series_key_of(tags_view(row.tags@), sk) && {
                &&& (r is Err <==> encode_utf8(measurement@).len() + sk.len() + 16
                    + row.tags_json@.len() + row.fields_json@.len() > u64::MAX)
                &&& (r is Ok ==> final(self).rows() == old(self).rows().insert(
                    RowKeyView { table: encode_utf8(measurement@), timestamp: row.timestamp, series_key: sk },
                    RowValueView { tags: row.tags_json@, fields: row.fields_json@ }))
            },
            r is Ok ==> final(self).spec_measurements() == old(self).spec_measurements().insert(measurement@),
            r is Ok ==> final(self).spec_tag_keys() == old(self).spec_tag_keys().union(tag_key_pairs(measurement@, tags_view(row.tags@))),
            r is Ok ==> final(self).spec_field_keys() == old(self).spec_field_keys().union(field_key_pairs(measurement@, strings(row.field_names@))),
            r is Ok ==> exists|msk: Seq<u8>| #[trigger] measurement_series_key_of(measurement@, tags_view(row.tags@), msk)
                && final(self).live() == old(self).live().insert(series_id_of(msk))
                && final(self).series() == if old(self).live().contains(series_id_of(msk)) {
                    old(self).series()
                } else {
                    old(self).series().insert(msk)
                },
            final(self).deleted() == old(self).deleted(),
            r is Err ==> final(self).rows() == old(self).rows() && final(self).spec_measurements() == old(self).spec_measurements()
                && final(self).spec_tag_keys() == old(self).spec_tag_keys() && final(self).spec_field_keys() == old(self).spec_field_keys()
                && final(self).series() == old(self).series() && final(self).size_estimate() == old(self).size_estimate()
                && final(self).live() == old(self).live(),
            final(self).size_limit() == old(self).size_limit(),
    {
        proof { use_type_invariant(&*self); }
        let sk = encode_series_key(&row.tags);
        let ghost skv = sk@;
        proof { assert(series_key_of(tags_view(row.tags@), skv)); }
        let table = measurement.as_bytes_vec();
        let total: u128 = table.len() as u128 + sk.len() as u128 + 16 + row.tags_json.len() as u128
            + row.fields_json.len() as u128;
        if total > u64::MAX as u128 {
            return Err(Error::MemTable("row too large".to_owned()));
        }
        let mut names: Vec<String> = Vec::new();
        std::mem::swap(&mut names, &mut self.measurements);
        add_name(&mut names, measurement);
        self.measurements = names;
        let mut tag_keys: Vec<(String, String)> = Vec::new();
        std::mem::swap(&mut tag_keys, &mut self.tag_keys);
        let ghost tk0 = pair_set(tag_keys@);
        let mut i: usize = 0;
        while i < row.tags.len()
            invariant
                i <= row.tags@.len(),
                pair_set(tag_keys@) == tk0.union(tag_key_pairs(measurement@, tags_view(row.tags@).take(i as int))),
            decreases row.tags@.len() - i,
        {
            add_pair(&mut tag_keys, measurement, row.tags[i].0.as_str());
            proof {
                assert(tk0.union(tag_key_pairs(measurement@, tags_view(row.tags@).take(i + 1)))
                    =~= tk0.union(tag_key_pairs(measurement@, tags_view(row.tags@).take(i as int))).insert((measurement@, row.tags@[i as int].0@))) by {
                    let t1 = tags_view(row.tags@).take(i + 1);
                    let t0 = tags_view(row.tags@).take(i as int);
                    assert(t1[i as int] == (row.tags@[i as int].0@, row.tags@[i as int].1@));
                    assert forall|j: int| 0 <= j < i implies t1[j] == t0[j] by {}
                }
            }
            i = i + 1;
        }
        proof { assert(tags_view(row.tags@).take(row.tags@.len() as int) =~= tags_view(row.tags@)); }
        self.tag_keys = tag_keys;
        let mut field_keys: Vec<(String, String)> = Vec::new();
        std::mem::swap(&mut field_keys, &mut self.field_keys);
        let ghost fk0 = pair_set(field_keys@);
        let mut k: usize = 0;
        while k < row.field_names.len()
            invariant
                k <= row.field_names@.len(),
                pair_set(field_keys@) == fk0.union(field_key_pairs(measurement@, strings(row.field_names@).take(k as int))),
            decreases row.field_names@.len() - k,
        {
            add_pair(&mut field_keys, measurement, row.field_names[k].as_str());
            proof {
                assert(fk0.union(field_key_pairs(measurement@, strings(row.field_names@).take(k + 1)))
                    =~= fk0.union(field_key_pairs(measurement@, strings(row.field_names@).take(k as int))).insert((measurement@, row.field_names@[k as int]@))) by {
                    let t1 = strings(row.field_names@).take(k + 1);
                    let t0 = strings(row.field_names@).take(k as int);
                    assert(t1[k as int] == row.field_names@[k as int]@);
                    assert forall|j: int| 0 <= j < k implies t1[j] == t0[j] by {}
                }
            }
            k = k + 1;
        }
        proof { assert(strings(row.field_names@).take(row.field_names@.len() as int) =~= strings(row.field_names@)); }
        self.field_keys = field_keys;
        let msk = encode_measurement_series_key(measurement, &row.tags);
        let ghost msk_v = msk@;
        proof { assert(measurement_series_key_of(measurement@, tags_view(row.tags@), msk_v)); }
        let id = series_id(&msk);
        if !has_id(&self.live_ids, id) {
            let mut live: Vec<u64> = Vec::new();
            std::mem::swap(&mut live, &mut self.live_ids);
            add_id(&mut live, id);
            self.live_ids = live;
            let mut series: Vec<Vec<u8>> = Vec::new();
            std::mem::swap(&mut series, &mut self.series_keys);
            add_bytes(&mut series, msk);
            self.series_keys = series;
        } else {
            proof { assert(id_set(self.live_ids@) =~= id_set(self.live_ids@).insert(id)); }
        }
        let key = RowKey { table, timestamp: row.timestamp, series_key: sk };
        let value = RowValue { tags: row.tags_json.clone(), fields: row.fields_json.clone() };
        let mut memtable = MemTable::new(0);
        std::mem::swap(&mut memtable, &mut self.memtable);
        memtable.insert_entry(key, value);
        self.memtable = memtable;
        Ok(())
    }

    /// The rows of a measurement with timestamps from `start` to `end`
    /// (excluded), in key order: exactly the rows written since the last
    /// flush that fall in the range.
    pub fn scan_rows(&self, measurement: &str, start: i64, end: i64) -> (r: Vec<(RowKey, RowValue)>)
        requires
            start <= end,
        ensures
            forall|k: RowKeyView, v: RowValueView| #[trigger] entries_view(r@).contains((k, v)) <==> (
                self.rows().contains_key(k) && self.rows()[k] == v
                && in_scan((k, v), encode_utf8(measurement@), start, end)),
    {
        match self.memtable.scan(measurement.as_bytes(), start, end) {
            Ok(v) => v,
            Err(_) => Vec::new(),
        }
    }

    /// The measurements written to.
    pub fn measurements(&self) -> (r: Vec<String>)
        ensures
            name_set(r@) == self.spec_measurements(),
    {
        let mut r: Vec<String> = Vec::new();
        let mut i: usize = 0;
        while i < self.measurements.len()
            invariant
                i <= self.measurements@.len(),
                r@.len() == i,
                forall|j: int| 0 <= j < i ==> #[trigger] r@[j]@ == self.measurements@[j]@,
            decreases self.measurements@.len() - i,
        {
            r.push(self.measurements[i].clone());
            i = i + 1;
        }
        proof {
            assert(name_set(r@) =~= name_set(self.measurements@)) by {
                assert forall|x: Seq<char>| name_set(r@).contains(x) implies name_set(self.measurements@).contains(x) by {
                    let j = choose|j: int| 0 <= j < r@.len() && r@[j]@ == x;
                    assert(self.measurements@[j]@ == x);
                }
                assert forall|x: Seq<char>| name_set(self.measurements@).contains(x) implies name_set(r@).contains(x) by {
                    let j = choose|j: int| 0 <= j < self.measurements@.len() && self.measurements@[j]@ == x;
                    assert(r@[j]@ == x);
                }
            }
        }
        r
    }

    /// The keys written under a measurement from a list of pairs.
    fn keys_of(pairs: &Vec<(String, String)>, measurement: &str) -> (r: Vec<String>)
        ensures
            forall|k: Seq<char>| #[trigger] name_set(r@).contains(k) <==> pair_set(pairs@).contains((measurement@, k)),
    {
        let mut r: Vec<String> = Vec::new();
        let mut i: usize = 0;
        while i < pairs.len()
            invariant
                i <= pairs@.len(),
                forall|k: Seq<char>| #[trigger] name_set(r@).contains(k) <==>
                    exists|j: int| 0 <= j < i && pairs@[j].0@ == measurement@ && pairs@[j].1@ == k,
            decreases pairs@.len() - i,
        {
            if str_eq(pairs[i].0.as_str(), measurement) {
                let ghost before = r@;
                r.push(pairs[i].1.clone());
                proof {
                    assert forall|k: Seq<char>| #[trigger] name_set(r@).contains(k) <==>
                        exists|j: int| 0 <= j < i + 1 && pairs@[j].0@ == measurement@ && pairs@[j].1@ == k by {
                        if name_set(r@).contains(k) {
                            let j = choose|j: int| 0 <= j < r@.len() && r@[j]@ == k;
                            if j < before.len() {
                                assert(before[j] == r@[j]);
                                assert(name_set(before).contains(k));
                            } else {
                                assert(pairs@[i as int].1@ == k);
                            }
                        }
                        if exists|j: int| 0 <= j < i + 1 && pairs@[j].0@ == measurement@ && pairs@[j].1@ == k {
                            let j = choose|j: int| 0 <= j < i + 1 && pairs@[j].0@ == measurement@ && pairs@[j].1@ == k;
                            if j < i {
                                assert(name_set(before).contains(k));
                                let j2 = choose|j2: int| 0 <= j2 < before.len() && before[j2]@ == k;
                                assert(r@[j2] == before[j2]);
                            } else {
                                assert(r@[before.len() as int]@ == k);
                            }
                        }
                    }
                }
            } else {
                proof {
                    assert forall|k: Seq<char>| #[trigger] name_set(r@).contains(k) <==>
                        exists|j: int| 0 <= j < i + 1 && pairs@[j].0@ == measurement@ && pairs@[j].1@ == k by {
                        if exists|j: int| 0 <= j < i + 1 && pairs@[j].0@ == measurement@ && pairs@[j].1@ == k {
                            let j = choose|j: int| 0 <= j < i + 1 && pairs@[j].0@ == measurement@ && pairs@[j].1@ == k;
                            assert(j < i);
                        }
                    }
                }
            }
            i = i + 1;
        }
        r
    }

    /// The tag keys written to a measurement.
    pub fn get_tag_keys(&self, measurement: &str) -> (r: Vec<String>)
        ensures
            forall|k: Seq<char>| #[trigger] name_set(r@).contains(k) <==> self.spec_tag_keys().contains((measurement@, k)),
    {
        Self::keys_of(&self.tag_keys, measurement)
    }

    /// The field keys written to a measurement.
    pub fn get_field_keys(&self, measurement: &str) -> (r: Vec<String>)
        ensures
            forall|k: Seq<char>| #[trigger] name_set(r@).contains(k) <==> self.spec_field_keys().contains((measurement@, k)),
    {
        Self::keys_of(&self.field_keys, measurement)
    }

    /// The number of series written.
    pub fn get_series_count(&self) -> (r: usize)
        ensures
            self.live().finite(),
            r == self.live().len(),
    {
        proof { use_type_invariant(self); lemma_id_set_len(self.live_ids@); }
        self.live_ids.len()
    }

    /// The estimated size of the rows since the last flush.
    pub fn get_memtable_size(&self) -> (r: u64)
        ensures
            r == self.size_estimate(),
    {
        self.memtable.size()
    }

    /// Forgets a measurement and its tag and field keys; its rows stay.
    pub fn drop_measurement(&mut self, name: &str) -> (r: Result<(), Error>)
        ensures
            r is Ok,
            final(self).spec_measurements() == old(self).spec_measurements().remove(name@),
            final(self).spec_tag_keys() == old(self).spec_tag_keys().filter(|p: (Seq<char>, Seq<char>)| p.0 != name@),
            final(self).spec_field_keys() == old(self).spec_field_keys().filter(|p: (Seq<char>, Seq<char>)| p.0 != name@),
            final(self).rows() == old(self).rows(),
            final(self).series() == old(self).series(),
    {
        proof { use_type_invariant(&*self); }
        let mut kept: Vec<String> = Vec::new();
        let mut i: usize = 0;
        while i < self.measurements.len()
            invariant
                i <= self.measurements@.len(),
                forall|x: Seq<char>| #[trigger] name_set(kept@).contains(x) <==>
                    (x != name@ && exists|j: int| 0 <= j < i && self.measurements@[j]@ == x),
            decreases self.measurements@.len() - i,
        {
            if !str_eq(self.measurements[i].as_str(), name) {
                let ghost before = kept@;
                kept.push(self.measurements[i].clone());
                proof {
                    assert forall|x: Seq<char>| #[trigger] name_set(kept@).contains(x) <==>
                        (x != name@ && exists|j: int| 0 <= j < i + 1 && self.measurements@[j]@ == x) by {
                        if name_set(kept@).contains(x) {
                            let j = choose|j: int| 0 <= j < kept@.len() && kept@[j]@ == x;
                            if j < before.len() { assert(before[j] == kept@[j]); assert(name_set(before).contains(x)); }
                        }
                        if x != name@ && exists|j: int| 0 <= j < i + 1 && self.measurements@[j]@ == x {
                            let j = choose|j: int| 0 <= j < i + 1 && self.measurements@[j]@ == x;
                            if j < i {
                                assert(name_set(before).contains(x));
                                let j2 = choose|j2: int| 0 <= j2 < before.len() && before[j2]@ == x;
                                assert(kept@[j2] == before[j2]);
                            } else {
                                assert(kept@[before.len() as int]@ == x);
                            }
                        }
                    }
                }
            } else {
                proof {
                    assert forall|x: Seq<char>| #[trigger] name_set(kept@).contains(x) <==>
                        (x != name@ && exists|j: int| 0 <= j < i + 1 && self.measurements@[j]@ == x) by {
                        if x != name@ && exists|j: int| 0 <= j < i + 1 && self.measurements@[j]@ == x {
                            let j = choose|j: int| 0 <= j < i + 1 && self.measurements@[j]@ == x;
                            assert(j < i);
                        }
                    }
                }
            }
            i = i + 1;
        }
        proof { assert(name_set(kept@) =~= name_set(self.measurements@).remove(name@)); }
        self.measurements = kept;
        let tags = Self::pairs_without(&self.tag_keys, name);
        self.tag_keys = tags;
        let fields = Self::pairs_without(&self.field_keys, name);
        self.field_keys = fields;
        Ok(())
    }

    fn pairs_without(pairs: &Vec<(String, String)>, name: &str) -> (r: Vec<(String, String)>)
        ensures
            pair_set(r@) == pair_set(pairs@).filter(|p: (Seq<char>, Seq<char>)| p.0 != name@),
    {
        let mut kept: Vec<(String, String)> = Vec::new();
        let mut i: usize = 0;
        while i < pairs.len()
            invariant
                i <= pairs@.len(),
                forall|x: (Seq<char>, Seq<char>)| #[trigger] pair_set(kept@).contains(x) <==>
                    (x.0 != name@ && exists|j: int| 0 <= j < i && pairs@[j].0@ == x.0 && pairs@[j].1@ == x.1),
            decreases pairs@.len() - i,
        {
            if !str_eq(pairs[i].0.as_str(), name) {
                let ghost before = kept@;
                kept.push((pairs[i].0.clone(), pairs[i].1.clone()));
                proof {
                    assert forall|x: (Seq<char>, Seq<char>)| #[trigger] pair_set(kept@).contains(x) <==>
                        (x.0 != name@ && exists|j: int| 0 <= j < i + 1 && pairs@[j].0@ == x.0 && pairs@[j].1@ == x.1) by {
                        if pair_set(kept@).contains(x) {
                            let j = choose|j: int| 0 <= j < kept@.len() && kept@[j].0@ == x.0 && kept@[j].1@ == x.1;
                            if j < before.len() { assert(before[j] == kept@[j]); assert(pair_set(before).contains(x)); }
                        }
                        if x.0 != name@ && exists|j: int| 0 <= j < i + 1 && pairs@[j].0@ == x.0 && pairs@[j].1@ == x.1 {
                            let j = choose|j: int| 0 <= j < i + 1 && pairs@[j].0@ == x.0 && pairs@[j].1@ == x.1;
                            if j < i {
                                assert(pair_set(before).contains(x));
                                let j2 = choose|j2: int| 0 <= j2 < before.len() && before[j2].0@ == x.0 && before[j2].1@ == x.1;
                                assert(kept@[j2] == before[j2]);
                            } else {
                                assert(kept@[before.len() as int].0@ == x.0);
                            }
                        }
                    }
                }
            } else {
                proof {
                    assert forall|x: (Seq<char>, Seq<char>)| #[trigger] pair_set(kept@).contains(x) <==>
                        (x.0 != name@ && exists|j: int| 0 <= j < i + 1 && pairs@[j].0@ == x.0 && pairs@[j].1@ == x.1) by {
                        if x.0 != name@ && exists|j: int| 0 <= j < i + 1 && pairs@[j].0@ == x.0 && pairs@[j].1@ == x.1 {
                            let j = choose|j: int| 0 <= j < i + 1 && pairs@[j].0@ == x.0 && pairs@[j].1@ == x.1;
                            assert(j < i);
                        }
                    }
                }
            }
            i = i + 1;
        }
        proof { assert(pair_set(kept@) =~= pair_set(pairs@).filter(|p: (Seq<char>, Seq<char>)| p.0 != name@)); }
        kept
    }

    fn clear_rows(&mut self)
        ensures
            final(self).rows() == Map::<RowKeyView, RowValueView>::empty(),
            final(self).size_estimate() == 0,
            final(self).size_limit() == old(self).size_limit(),
            final(self).spec_measurements() == old(self).spec_measurements(),
            final(self).spec_tag_keys() == old(self).spec_tag_keys(),
            final(self).spec_field_keys() == old(self).spec_field_keys(),
            final(self).series() == old(self).series(),
            final(self).live() == old(self).live(),
            final(self).deleted() == old(self).deleted(),
    {
        proof { use_type_invariant(&*self); }
        let mut memtable = MemTable::new(0);
        std::mem::swap(&mut memtable, &mut self.memtable);
        let _ = memtable.flush();
        self.memtable = memtable;
    }

    fn forget_id(&mut self, id: u64)
        ensures
            final(self).live() == old(self).live().remove(id),
            final(self).deleted() == old(self).deleted().insert(id),
            final(self).rows() == old(self).rows(),
            final(self).size_estimate() == old(self).size_estimate(),
            final(self).size_limit() == old(self).size_limit(),
            final(self).spec_measurements() == old(self).spec_measurements(),
            final(self).spec_tag_keys() == old(self).spec_tag_keys(),
            final(self).spec_field_keys() == old(self).spec_field_keys(),
            final(self).series() == old(self).series(),
            final(self).series_keys@ == old(self).series_keys@,
    {
        proof { use_type_invariant(&*self); }
        let mut live: Vec<u64> = Vec::new();
        std::mem::swap(&mut live, &mut self.live_ids);
        remove_id(&mut live, id);
        self.live_ids = live;
        let mut deleted: Vec<u64> = Vec::new();
        std::mem::swap(&mut deleted, &mut self.deleted_ids);
        add_id(&mut deleted, id);
        self.deleted_ids = deleted;
    }

    /// Drops a series by id, or every series written when no id is given:
    /// their ids leave the index and are remembered as deleted, and the
    /// rows in memory are cleared.
    pub fn drop_series(&mut self, series_id: Option<u64>) -> (r: Result<(), Error>)
        ensures
            r is Ok,
            final(self).rows() == Map::<RowKeyView, RowValueView>::empty(),
            final(self).size_estimate() == 0,
            series_id matches Some(id) ==> final(self).live() == old(self).live().remove(id)
                && final(self).deleted() == old(self).deleted().insert(id),
            series_id is None ==> final(self).live() == old(self).live().difference(old(self).series().map(|k: Seq<u8>| series_id_of(k)))
                && final(self).deleted() == old(self).deleted().union(old(self).series().map(|k: Seq<u8>| series_id_of(k))),
            final(self).series() == old(self).series(),
            final(self).spec_measurements() == old(self).spec_measurements(),
            final(self).size_limit() == old(self).size_limit(),
    {
        proof { use_type_invariant(&*self); }
        match series_id {
            Some(id) => { self.forget_id(id); },
            None => {
                let ghost ids = old(self).series().map(|k: Seq<u8>| series_id_of(k));
                let ghost keys = self.series_keys@;
                let mut i: usize = 0;
                let n = self.series_keys.len();
                while i < n
                    invariant
                        n == keys.len(),
                        keys == self.series_keys@,
                        i <= n,
                        self.series() == old(self).series(),
                        self.series() == bytes_set(keys),
                        ids == old(self).series().map(|k: Seq<u8>| series_id_of(k)),
                        self.live() == old(self).live().difference(bytes_set(keys.take(i as int)).map(|k: Seq<u8>| series_id_of(k))),
                        self.deleted() == old(self).deleted().union(bytes_set(keys.take(i as int)).map(|k: Seq<u8>| series_id_of(k))),
                        self.rows() == old(self).rows(),
                        self.size_estimate() == old(self).size_estimate(),
                        self.size_limit() == old(self).size_limit(),
                        self.spec_measurements() == old(self).spec_measurements(),
                    decreases n - i,
                {
                    proof { use_type_invariant(&*self); }
                    let id = crate::engine::series_id(&self.series_keys[i]);
                    self.forget_id(id);
                    proof {
                        let k0 = keys.take(i as int);
                        let k1 = keys.take(i + 1);
                        let before = bytes_set(k0).map(|k: Seq<u8>| series_id_of(k));
                        let after = bytes_set(k1).map(|k: Seq<u8>| series_id_of(k));
                        assert(after =~= before.insert(id)) by {
                            assert forall|x: u64| after.contains(x) <==> before.insert(id).contains(x) by {
                                if after.contains(x) {
                                    let k = choose|k: Seq<u8>| bytes_set(k1).contains(k) && series_id_of(k) == x;
                                    let j = choose|j: int| 0 <= j < k1.len() && k1[j]@ == k;
                                    if j < i {
                                        assert(k0[j] == k1[j]);
                                        assert(bytes_set(k0).contains(k));
                                    } else {
                                        assert(keys[i as int]@ == k);
                                    }
                                }
                                if before.contains(x) {
                                    let k = choose|k: Seq<u8>| bytes_set(k0).contains(k) && series_id_of(k) == x;
                                    let j = choose|j: int| 0 <= j < k0.len() && k0[j]@ == k;
                                    assert(k1[j] == k0[j]);
                                    assert(bytes_set(k1).contains(k));
                                }
                                if x == id {
                                    let k = keys[i as int]@;
                                    assert(k1[i as int]@ == k);
                                    assert(bytes_set(k1).contains(k));
                                }
                            }
                        }
                        assert(old(self).live().difference(after) =~= old(self).live().difference(before).remove(id));
                        assert(old(self).deleted().union(after) =~= old(self).deleted().union(before).insert(id));
                    }
                    i = i + 1;
                }
                proof { assert(keys.take(n as int) =~= keys); }
            },
        }
        self.clear_rows();
        Ok(())
    }

    /// Deletes the series of a measurement's tags (of no tags when none
    /// are given), where it was written: its id leaves the index and is
    /// remembered as deleted; the rows in memory are cleared.
    pub fn delete(&mut self, measurement: &str, tags: Option<&Vec<(String, String)>>) -> (r: Result<(), Error>)
        ensures
            r is Ok,
            final(self).rows() == Map::<RowKeyView, RowValueView>::empty(),
            final(self).size_estimate() == 0,
            exists|msk: Seq<u8>| #[trigger] measurement_series_key_of(measurement@, opt_tags(tags), msk) && (
                if old(self).series().contains(msk) {
                    final(self).live() == old(self).live().remove(series_id_of(msk))
                    && final(self).deleted() == old(self).deleted().insert(series_id_of(msk))
                } else {
                    final(self).live() == old(self).live() && final(self).deleted() == old(self).deleted()
                }),
            final(self).series() == old(self).series(),
            final(self).spec_measurements() == old(self).spec_measurements(),
            final(self).size_limit() == old(self).size_limit(),
    {
        proof { use_type_invariant(&*self); }
        let none: Vec<(String, String)> = Vec::new();
        let t = match tags { Some(t) => t, None => &none };
        proof { assert(tags_view(none@) =~= Seq::<(Seq<char>, Seq<char>)>::empty()); }
        let key = encode_measurement_series_key(measurement, t);
        let ghost kv = key@;
        proof {
            assert(opt_tags(tags) == tags_view(t@));
            assert(measurement_series_key_of(measurement@, opt_tags(tags), kv));
        }
        if self.has_series(&key) {
            let id = series_id(&key);
            self.forget_id(id);
        }
        self.clear_rows();
        Ok(())
    }

    fn has_series(&self, key: &Vec<u8>) -> (r: bool)
        ensures
            r == self.series().contains(key@),
    {
        let mut i: usize = 0;
        while i < self.series_keys.len()
            invariant
                i <= self.series_keys@.len(),
                forall|j: int| 0 <= j < i ==> self.series_keys@[j]@ != key@,
            decreases self.series_keys@.len() - i,
        {
            match compare_bytes(self.series_keys[i].as_slice(), key.as_slice()) {
                KeyOrder::Equal => { return true; },
                _ => {},
            }
            i = i + 1;
        }
        false
    }

    /// Whether a series id was dropped or deleted.
    pub fn is_series_deleted(&self, series_id: u64) -> (r: bool)
        ensures
            r == self.deleted().contains(series_id),
    {
        has_id(&self.deleted_ids, series_id)
    }

    /// The id of the series of a measurement's tags, where it was written.
    pub fn get_series_id(&self, measurement: &str, tags: &Vec<(String, String)>) -> (r: Option<u64>)
        ensures
            exists|msk: Seq<u8>| #[trigger] measurement_series_key_of(measurement@, tags_view(tags@), msk)
                && r == if self.series().contains(msk) { Some(series_id_of(msk)) } else { None },
    {
        let key = encode_measurement_series_key(measurement, tags);
        let ghost kv = key@;
        proof { assert(measurement_series_key_of(measurement@, tags_view(tags@), kv)); }
        if self.has_series(&key) { Some(series_id(&key)) } else { None }
    }

    /// Takes every row written since the last flush, in key order, when
    /// their size has reached the limit; nothing otherwise.
    pub fn flush(&mut self) -> (r: Vec<(RowKey, RowValue)>)
        ensures
            old(self).size_estimate() >= old(self).size_limit() ==> (
                final(self).rows() == Map::<RowKeyView, RowValueView>::empty()
                && final(self).size_estimate() == 0
                && forall|k: RowKeyView, v: RowValueView| #[trigger] entries_view(r@).contains((k, v))
                    <==> old(self).rows().contains_key(k) && old(self).rows()[k] == v),
            old(self).size_estimate() < old(self).size_limit() ==> (r@.len() == 0 && final(self).rows() == old(self).rows()
                && final(self).size_estimate() == old(self).size_estimate()),
            final(self).size_limit() == old(self).size_limit(),
            final(self).spec_measurements() == old(self).spec_measurements(),
            final(self).series() == old(self).series(),
    {
        proof { use_type_invariant(&*self); }
        if self.memtable.should_flush() {
            self.force_flush()
        } else {
            Vec::new()
        }
    }

    /// Takes every row written since the last flush, in key order.
    pub fn force_flush(&mut self) -> (r: Vec<(RowKey, RowValue)>)
        ensures
            final(self).rows() == Map::<RowKeyView, RowValueView>::empty(),
            final(self).size_estimate() == 0,
            forall|k: RowKeyView, v: RowValueView| #[trigger] entries_view(r@).contains((k, v))
                <==> old(self).rows().contains_key(k) && old(self).rows()[k] == v,
            final(self).size_limit() == old(self).size_limit(),
            final(self).spec_measurements() == old(self).spec_measurements(),
            final(self).series() == old(self).series(),
    {
        proof { use_type_invariant(&*self); }
        let mut memtable = MemTable::new(0);
        std::mem::swap(&mut memtable, &mut self.memtable);
        let r = match memtable.flush() {
            Ok(v) => v,
            Err(_) => Vec::new(),
        };
        self.memtable = memtable;
        r
    }
}

proof fn lemma_id_set_len(v: Seq<u64>)
    requires
        ids_distinct(v),
    ensures
        id_set(v).finite(),
        id_set(v).len() == v.len(),
    decreases v.len(),
{
    if v.len() == 0 {
        assert(id_set(v) =~= Set::<u64>::empty());
    } else {
        let d = v.drop_last();
        assert(ids_distinct(d)) by {
            assert forall|i: int, j: int| 0 <= i < j < d.len() implies d[i] != d[j] by {
                assert(d[i] == v[i] && d[j] == v[j]);
            }
        }
        lemma_id_set_len(d);
        assert(!id_set(d).contains(v.last())) by {
            if d.contains(v.last()) {
                let j = choose|j: int| 0 <= j < d.len() && d[j] == v.last();
                assert(v[j] == d[j]);
            }
        }
        assert(id_set(v) =~= id_set(d).insert(v.last())) by {
            assert forall|x: u64| id_set(v).contains(x) <==> id_set(d).insert(v.last()).contains(x) by {
                if v.contains(x) && x != v.last() {
                    let j = choose|j: int| 0 <= j < v.len() && v[j] == x;
                    assert(d[j] == x);
                }
                if d.contains(x) {
                    let j = choose|j: int| 0 <= j < d.len() && d[j] == x;
                    assert(v[j] == x);
                }
                if x == v.last() { assert(v[v.len() - 1] == x); }
            }
        }
    }
}

} // verus!
