//! The in-memory table: rows by key, kept in key order, with a running
//! estimate of their size. A key orders by table, then timestamp, then
//! series key, the byte strings compared lexicographically.

use vstd::prelude::*;
use crate::error::Error;
use crate::http::joined;
use crate::text::{push_char, push_str};
use vstd::string::*;
use vstd::utf8::encode_utf8;
use crate::keyed::{keyed, keys_unique, lemma_keyed_absent, lemma_keyed_facts, lemma_keyed_update};

verus! {

/// Whether one byte string comes before another in lexicographic order (a
/// proper prefix comes first).
pub open spec fn bytes_lt(a: Seq<u8>, b: Seq<u8>) -> bool
    decreases a.len(),
{
    if a.len() == 0 {
        b.len() > 0
    } else if b.len() == 0 {
        false
    } else if a[0] != b[0] {
        a[0] < b[0]
    } else {
        bytes_lt(a.drop_first(), b.drop_first())
    }
}

/// Lexicographic order is a strict total order.
pub proof fn lemma_bytes_order(a: Seq<u8>, b: Seq<u8>, c: Seq<u8>)
    ensures
        !bytes_lt(a, a),
        a != b ==> (bytes_lt(a, b) || bytes_lt(b, a)),
        !(bytes_lt(a, b) && bytes_lt(b, a)),
        bytes_lt(a, b) && bytes_lt(b, c) ==> bytes_lt(a, c),
    decreases a.len(),
{
    if a.len() > 0 && b.len() > 0 && c.len() > 0 {
        lemma_bytes_order(a.drop_first(), b.drop_first(), c.drop_first());
    } else if a.len() > 0 && b.len() > 0 {
        lemma_bytes_order(a.drop_first(), b.drop_first(), b.drop_first());
    } else if a.len() > 0 {
        lemma_bytes_order(a.drop_first(), a.drop_first(), a.drop_first());
    }
    if a != b && a.len() > 0 && b.len() > 0 && a[0] == b[0] {
        assert(a.drop_first() != b.drop_first()) by {
            if a.drop_first() == b.drop_first() {
                assert(a =~= seq![a[0]] + a.drop_first());
                assert(b =~= seq![b[0]] + b.drop_first());
            }
        }
    }
    if a.len() == 0 && b.len() == 0 {
        assert(a =~= b);
    }
}

/// The key of a row: its table, its timestamp and its series key.
#[derive(Debug, Clone, PartialEq, Eq, PartialOrd, Ord)]
pub struct RowKey {
    pub table: Vec<u8>,
    pub timestamp: i64,
    pub series_key: Vec<u8>,
}

/// The abstract value of a row key.
pub struct RowKeyView {
    pub table: Seq<u8>,
    pub timestamp: i64,
    pub series_key: Seq<u8>,
}

impl View for RowKey {
    type V = RowKeyView;

    open spec fn view(&self) -> RowKeyView {
        RowKeyView { table: self.table@, timestamp: self.timestamp, series_key: self.series_key@ }
    }
}

/// Whether one key comes before another: by table, then timestamp, then
/// series key.
pub open spec fn key_lt(a: RowKeyView, b: RowKeyView) -> bool {
    bytes_lt(a.table, b.table)
        || (a.table == b.table && (a.timestamp < b.timestamp
            || (a.timestamp == b.timestamp && bytes_lt(a.series_key, b.series_key))))
}

/// The order of keys is a strict total order.
pub proof fn lemma_key_order(a: RowKeyView, b: RowKeyView, c: RowKeyView)
    ensures
        !key_lt(a, a),
        a != b ==> (key_lt(a, b) || key_lt(b, a)),
        !(key_lt(a, b) && key_lt(b, a)),
        key_lt(a, b) && key_lt(b, c) ==> key_lt(a, c),
{
    lemma_bytes_order(a.table, b.table, c.table);
    lemma_bytes_order(a.series_key, b.series_key, c.series_key);
    lemma_bytes_order(b.table, a.table, c.table);
    lemma_bytes_order(b.series_key, a.series_key, c.series_key);
    lemma_bytes_order(a.table, c.table, b.table);
}

impl RowKey {
    /// The size a key is counted at: its two byte strings and sixteen bytes.
    pub fn estimate_size(&self) -> (r: u64)
        requires
            self.table@.len() + self.series_key@.len() + 16 <= u64::MAX,
        ensures
            r == self.table@.len() + self.series_key@.len() + 16,
    {
        self.table.len() as u64 + self.series_key.len() as u64 + 16
    }
}

/// The stored value of a row: its tags and its fields, encoded.
#[derive(Debug, Clone)]
pub struct RowValue {
    pub tags: Vec<u8>,
    pub fields: Vec<u8>,
}

/// The abstract value of a stored value.
pub struct RowValueView {
    pub tags: Seq<u8>,
    pub fields: Seq<u8>,
}

impl View for RowValue {
    type V = RowValueView;

    open spec fn view(&self) -> RowValueView {
        RowValueView { tags: self.tags@, fields: self.fields@ }
    }
}

impl RowValue {
    /// The size a value is counted at: its two byte strings.
    pub fn estimate_size(&self) -> (r: u64)
        requires
            self.tags@.len() + self.fields@.len() <= u64::MAX,
        ensures
            r == self.tags@.len() + self.fields@.len(),
    {
        self.tags.len() as u64 + self.fields.len() as u64
    }
}

/// The key of an entry.
pub open spec fn entry_key() -> spec_fn((RowKey, RowValue)) -> RowKeyView {
    |e: (RowKey, RowValue)| e.0@
}

/// The value of an entry.
pub open spec fn entry_val() -> spec_fn((RowKey, RowValue)) -> RowValueView {
    |e: (RowKey, RowValue)| e.1@
}

/// Whether the entries are in strictly increasing key order.
pub open spec fn sorted(s: Seq<(RowKey, RowValue)>) -> bool {
    forall|i: int, j: int| 0 <= i < j < s.len() ==> key_lt(#[trigger] s[i].0@, #[trigger] s[j].0@)
}

/// The abstract values of entries.
pub open spec fn entries_view(s: Seq<(RowKey, RowValue)>) -> Seq<(RowKeyView, RowValueView)> {
    s.map_values(|e: (RowKey, RowValue)| (e.0@, e.1@))
}

/// The entries of a table with timestamps from `start` to `end` (excluded).
pub open spec fn in_scan(e: (RowKeyView, RowValueView), table: Seq<u8>, start: i64, end: i64) -> bool {
    e.0.table == table && start <= e.0.timestamp && e.0.timestamp < end
}

/// The entries, in order, that a scan selects.
pub open spec fn scanned(s: Seq<(RowKeyView, RowValueView)>, table: Seq<u8>, start: i64, end: i64) -> Seq<(RowKeyView, RowValueView)>
    decreases s.len(),
{
    if s.len() == 0 {
        Seq::empty()
    } else if in_scan(s.last(), table, start, end) {
        scanned(s.drop_last(), table, start, end).push(s.last())
    } else {
        scanned(s.drop_last(), table, start, end)
    }
}

/// Rows in memory by key, with the estimated size and the number of rows
/// written since the last flush.
pub struct MemTable {
    data: Vec<(RowKey, RowValue)>,
    size: u64,
    max_size: u64,
    row_count: u64,
}


/// How two keys compare.
#[derive(Debug, Clone, Copy, PartialEq, Eq)]
pub enum KeyOrder {
    Less,
    Equal,
    Greater,
}

pub(crate) fn compare_bytes(a: &[u8], b: &[u8]) -> (r: KeyOrder)
    ensures
        r == KeyOrder::Less <==> bytes_lt(a@, b@),
        r == KeyOrder::Equal <==> a@ == b@,
        r == KeyOrder::Greater <==> bytes_lt(b@, a@),
{
    proof {
        lemma_bytes_order(a@, b@, a@);
        assert(a@.skip(0) =~= a@);
        assert(b@.skip(0) =~= b@);
    }
    let mut i: usize = 0;
    let n = if a.len() < b.len() { a.len() } else { b.len() };
    while i < n
        invariant
            n <= a@.len(),
            n <= b@.len(),
            n == a@.len() || n == b@.len(),
            i <= n,
            a@.take(i as int) == b@.take(i as int),
            bytes_lt(a@, b@) == bytes_lt(a@.skip(i as int), b@.skip(i as int)),
            bytes_lt(b@, a@) == bytes_lt(b@.skip(i as int), a@.skip(i as int)),
        decreases n - i,
    {
        proof {
            assert(a@.skip(i as int).drop_first() =~= a@.skip(i + 1));
            assert(b@.skip(i as int).drop_first() =~= b@.skip(i + 1));
            assert(a@.take(i + 1) =~= a@.take(i as int).push(a@[i as int]));
            assert(b@.take(i + 1) =~= b@.take(i as int).push(b@[i as int]));
        }
        if a[i] != b[i] {
            proof {
                if a@ == b@ { assert(a@[i as int] == b@[i as int]); }
            }
            if a[i] < b[i] {
                return KeyOrder::Less;
            } else {
                return KeyOrder::Greater;
            }
        }
        i = i + 1;
    }
    proof {
        if a@.len() == b@.len() {
            assert(a@ =~= a@.take(n as int));
            assert(b@ =~= b@.take(n as int));
        } else {
            if a@ == b@ { assert(false); }
        }
    }
    if a.len() < b.len() {
        KeyOrder::Less
    } else if a.len() == b.len() {
        KeyOrder::Equal
    } else {
        KeyOrder::Greater
    }
}

fn compare_keys(a: &RowKey, b: &RowKey) -> (r: KeyOrder)
    ensures
        r == KeyOrder::Less <==> key_lt(a@, b@),
        r == KeyOrder::Equal <==> a@ == b@,
        r == KeyOrder::Greater <==> key_lt(b@, a@),
{
    proof { lemma_key_order(a@, b@, a@); }
    match compare_bytes(a.table.as_slice(), b.table.as_slice()) {
        KeyOrder::Less => KeyOrder::Less,
        KeyOrder::Greater => KeyOrder::Greater,
        KeyOrder::Equal => {
            if a.timestamp < b.timestamp {
                KeyOrder::Less
            } else if a.timestamp > b.timestamp {
                KeyOrder::Greater
            } else {
                compare_bytes(a.series_key.as_slice(), b.series_key.as_slice())
            }
        },
    }
}

impl RowKey {
    /// A copy with the same abstract value.
    pub fn duplicate(&self) -> (r: Self)
        ensures
            r@ == self@,
    {
        RowKey { table: self.table.clone(), timestamp: self.timestamp, series_key: self.series_key.clone() }
    }
}

impl RowValue {
    /// A copy with the same abstract value.
    pub fn duplicate(&self) -> (r: Self)
        ensures
            r@ == self@,
    {
        RowValue { tags: self.tags.clone(), fields: self.fields.clone() }
    }
}

/// Entries in strictly increasing key order have distinct keys.
proof fn lemma_sorted_unique(s: Seq<(RowKey, RowValue)>)
    requires
        sorted(s),
    ensures
        keys_unique(s, entry_key()),
{
    assert forall|i: int, j: int| 0 <= i < j < s.len() implies entry_key()(s[i]) != entry_key()(s[j]) by {
        lemma_key_order(s[i].0@, s[j].0@, s[j].0@);
        assert(key_lt(s[i].0@, s[j].0@));
    }
}

impl MemTable {
    #[verifier::type_invariant]
    spec fn in_key_order(self) -> bool {
        sorted(self.data@)
    }

    /// The rows by key.
    pub closed spec fn contents(&self) -> Map<RowKeyView, RowValueView> {
        keyed(self.data@, entry_key(), entry_val())
    }

    /// The rows, in key order.
    pub closed spec fn entries(&self) -> Seq<(RowKeyView, RowValueView)> {
        entries_view(self.data@)
    }

    /// The estimated size of what was written since the last flush.
    pub closed spec fn size_estimate(&self) -> u64 {
        self.size
    }

    /// The size at which the table asks to be flushed.
    pub closed spec fn size_limit(&self) -> u64 {
        self.max_size
    }

    /// The number of rows written since the last flush.
    pub closed spec fn rows_written(&self) -> u64 {
        self.row_count
    }

    /// An empty table that asks to be flushed at the given size.
    pub fn new(max_size: u64) -> (r: Self)
        ensures
            r.entries().len() == 0,
            r.contents() == Map::<RowKeyView, RowValueView>::empty(),
            r.size_estimate() == 0,
            r.size_limit() == max_size,
            r.rows_written() == 0,
    {
        MemTable { data: Vec::new(), size: 0, max_size, row_count: 0 }
    }

    fn position(&self, key: &RowKey) -> (r: (usize, bool))
        ensures
            r.0 <= self.data@.len(),
            forall|i: int| 0 <= i < r.0 ==> key_lt(#[trigger] self.data@[i].0@, key@),
            r.1 ==> r.0 < self.data@.len() && self.data@[r.0 as int].0@ == key@,
            !r.1 && r.0 < self.data@.len() ==> key_lt(key@, self.data@[r.0 as int].0@),
    {
        let mut i: usize = 0;
        while i < self.data.len()
            invariant
                i <= self.data@.len(),
                forall|j: int| 0 <= j < i ==> key_lt(#[trigger] self.data@[j].0@, key@),
            decreases self.data@.len() - i,
        {
            match compare_keys(&self.data[i].0, key) {
                KeyOrder::Less => {},
                KeyOrder::Equal => { return (i, true); },
                KeyOrder::Greater => { return (i, false); },
            }
            i = i + 1;
        }
        (i, false)
    }

    /// Writes a row under its key, replacing a row of the same key; the
    /// size grows by the key's and the value's estimates and the row count
    /// by one (both wrapping).
    pub fn insert_entry(&mut self, key: RowKey, value: RowValue)
        requires
            key.table@.len() + key.series_key@.len() + 16 + value.tags@.len() + value.fields@.len() <= u64::MAX,
        ensures
            final(self).contents() == old(self).contents().insert(key@, value@),
            final(self).size_estimate() == old(self).size_estimate().wrapping_add(
                (key.table@.len() + key.series_key@.len() + 16 + value.tags@.len() + value.fields@.len()) as u64),
            final(self).rows_written() == old(self).rows_written().wrapping_add(1),
            final(self).size_limit() == old(self).size_limit(),
    {
        proof { use_type_invariant(&*self); }
        let entry_size = key.estimate_size() + value.estimate_size();
        let (p, found) = self.position(&key);
        let mut data: Vec<(RowKey, RowValue)> = Vec::new();
        std::mem::swap(&mut data, &mut self.data);
        let ghost old_data = data@;
        let ghost k = key@;
        proof { lemma_sorted_unique(old_data); }
        if found {
            proof { lemma_keyed_update(old_data, entry_key(), entry_val(), p as int, (key, value)); }
            data.set(p, (key, value));
            proof {
                assert(sorted(data@)) by {
                    assert forall|i: int, j: int| 0 <= i < j < data@.len() implies key_lt(#[trigger] data@[i].0@, #[trigger] data@[j].0@) by {
                        assert(key_lt(old_data[i].0@, old_data[j].0@));
                    }
                }
            }
        } else {
            proof {
                assert forall|j: int| 0 <= j < old_data.len() implies entry_key()(old_data[j]) != k by {
                    if j < p {
                        lemma_key_order(old_data[j].0@, k, k);
                    } else {
                        lemma_key_order(k, old_data[p as int].0@, old_data[j].0@);
                        if j > p { assert(key_lt(old_data[p as int].0@, old_data[j].0@)); }
                        lemma_key_order(k, old_data[j].0@, k);
                    }
                }
                lemma_keyed_absent(old_data, entry_key(), entry_val(), k);
            }
            data.insert(p, (key, value));
            proof {
                assert(data@ == old_data.insert(p as int, (key, value)));
                assert(keyed(data@, entry_key(), entry_val()) =~= keyed(old_data, entry_key(), entry_val()).insert(k, value@)) by {
                    lemma_insert_keyed(old_data, p as int, (key, value));
                }
                assert(sorted(data@)) by {
                    assert forall|i: int, j: int| 0 <= i < j < data@.len() implies key_lt(#[trigger] data@[i].0@, #[trigger] data@[j].0@) by {
                        if j < p {
                            assert(key_lt(old_data[i].0@, old_data[j].0@));
                        } else if j == p {
                            assert(key_lt(old_data[i].0@, k));
                        } else if i < p {
                            assert(key_lt(old_data[i].0@, k));
                            lemma_key_order(old_data[i].0@, k, old_data[j - 1].0@);
                            if j - 1 > p { assert(key_lt(old_data[p as int].0@, old_data[j - 1].0@)); lemma_key_order(k, old_data[p as int].0@, old_data[j - 1].0@); }
                        } else if i == p {
                            if j - 1 > p { assert(key_lt(old_data[p as int].0@, old_data[j - 1].0@)); lemma_key_order(k, old_data[p as int].0@, old_data[j - 1].0@); }
                        } else {
                            assert(key_lt(old_data[i - 1].0@, old_data[j - 1].0@));
                        }
                    }
                }
            }
        }
        self.data = data;
        self.size = self.size.wrapping_add(entry_size);
        self.row_count = self.row_count.wrapping_add(1);
    }
}

/// Inserting an entry whose key is new adds its key to the map.
proof fn lemma_insert_keyed(s: Seq<(RowKey, RowValue)>, p: int, e: (RowKey, RowValue))
    requires
        0 <= p <= s.len(),
        keys_unique(s, entry_key()),
        !keyed(s, entry_key(), entry_val()).contains_key(e.0@),
    ensures
        keyed(s.insert(p, e), entry_key(), entry_val()) == keyed(s, entry_key(), entry_val()).insert(e.0@, e.1@),
{
    let q = s.insert(p, e);
    lemma_keyed_facts(s, entry_key(), entry_val());
    assert(keys_unique(q, entry_key())) by {
        assert forall|a: int, b: int| 0 <= a < b < q.len() implies entry_key()(q[a]) != entry_key()(q[b]) by {
            if a != p && b != p {
                let a2 = if a < p { a } else { a - 1 };
                let b2 = if b < p { b } else { b - 1 };
                assert(q[a] == s[a2] && q[b] == s[b2]);
            } else if a == p {
                let b2 = b - 1;
                assert(q[b] == s[b2]);
            } else {
                assert(q[a] == s[a]);
            }
        }
    }
    lemma_keyed_facts(q, entry_key(), entry_val());
    let m = keyed(s, entry_key(), entry_val()).insert(e.0@, e.1@);
    assert forall|k: RowKeyView| #[trigger] keyed(q, entry_key(), entry_val()).contains_key(k) <==> m.contains_key(k) by {
        if keyed(q, entry_key(), entry_val()).contains_key(k) && k != e.0@ {
            let j = choose|j: int| 0 <= j < q.len() && entry_key()(q[j]) == k;
            if j < p { assert(q[j] == s[j]); } else if j > p { assert(q[j] == s[j - 1]); }
        }
        if keyed(s, entry_key(), entry_val()).contains_key(k) {
            let j = choose|j: int| 0 <= j < s.len() && entry_key()(s[j]) == k;
            if j < p { assert(q[j] == s[j]); } else { assert(q[j + 1] == s[j]); }
        }
        if k == e.0@ { assert(q[p] == e); }
    }
    assert forall|k: RowKeyView| keyed(q, entry_key(), entry_val()).contains_key(k) implies keyed(q, entry_key(), entry_val())[k] == m[k] by {
        let j = choose|j: int| 0 <= j < q.len() && entry_key()(q[j]) == k;
        assert(keyed(q, entry_key(), entry_val())[entry_key()(q[j])] == entry_val()(q[j]));
        if j < p {
            assert(q[j] == s[j]);
            assert(keyed(s, entry_key(), entry_val())[entry_key()(s[j])] == entry_val()(s[j]));
        } else if j > p {
            assert(q[j] == s[j - 1]);
            assert(keyed(s, entry_key(), entry_val())[entry_key()(s[j - 1])] == entry_val()(s[j - 1]));
        }
    }
    assert(keyed(q, entry_key(), entry_val()) =~= m);
}


/// Whether abstract entries are in strictly increasing key order.
pub open spec fn views_sorted(s: Seq<(RowKeyView, RowValueView)>) -> bool {
    forall|i: int, j: int| 0 <= i < j < s.len() ==> key_lt(#[trigger] s[i].0, #[trigger] s[j].0)
}

/// Entries in key order hold a pair exactly when the rows by key map its
/// key to its value.
proof fn lemma_entries_contents(data: Seq<(RowKey, RowValue)>)
    requires
        sorted(data),
    ensures
        forall|k: RowKeyView, x: RowValueView| #[trigger] entries_view(data).contains((k, x)) <==> (
            keyed(data, entry_key(), entry_val()).contains_key(k) && keyed(data, entry_key(), entry_val())[k] == x),
{
    lemma_sorted_unique(data);
    lemma_keyed_facts(data, entry_key(), entry_val());
    let ent = entries_view(data);
    let c = keyed(data, entry_key(), entry_val());
    assert forall|k: RowKeyView, x: RowValueView| #[trigger] ent.contains((k, x)) <==> (c.contains_key(k) && c[k] == x) by {
        if ent.contains((k, x)) {
            let i = choose|i: int| 0 <= i < ent.len() && ent[i] == (k, x);
            assert(entry_key()(data[i]) == k);
            assert(c[entry_key()(data[i])] == entry_val()(data[i]));
        }
        if c.contains_key(k) && c[k] == x {
            let i = choose|i: int| 0 <= i < data.len() && entry_key()(data[i]) == k;
            assert(c[entry_key()(data[i])] == entry_val()(data[i]));
            assert(ent[i] == (k, x));
        }
    }
}

/// A scan selects exactly the entries of the table in the time range.
pub proof fn lemma_scanned_members(s: Seq<(RowKeyView, RowValueView)>, table: Seq<u8>, start: i64, end: i64, e: (RowKeyView, RowValueView))
    ensures
        scanned(s, table, start, end).contains(e) <==> (s.contains(e) && in_scan(e, table, start, end)),
    decreases s.len(),
{
    if s.len() > 0 {
        lemma_scanned_members(s.drop_last(), table, start, end, e);
        let sc = scanned(s.drop_last(), table, start, end);
        if s.contains(e) && in_scan(e, table, start, end) {
            let i = choose|i: int| 0 <= i < s.len() && s[i] == e;
            if i < s.len() - 1 {
                assert(s.drop_last()[i] == e);
                if in_scan(s.last(), table, start, end) {
                    let j = choose|j: int| 0 <= j < sc.len() && sc[j] == e;
                    assert(sc.push(s.last())[j] == e);
                }
            } else {
                assert(sc.push(s.last())[sc.len() as int] == e);
            }
        }
        if scanned(s, table, start, end).contains(e) {
            if in_scan(s.last(), table, start, end) {
                let j = choose|j: int| 0 <= j < sc.len() + 1 && sc.push(s.last())[j] == e;
                if j < sc.len() {
                    assert(sc[j] == e);
                    let i = choose|i: int| 0 <= i < s.drop_last().len() && s.drop_last()[i] == e;
                    assert(s[i] == e);
                } else {
                    assert(s[s.len() - 1] == e);
                }
            } else {
                let i = choose|i: int| 0 <= i < s.drop_last().len() && s.drop_last()[i] == e;
                assert(s[i] == e);
            }
        }
    }
}

/// What a read gives back of a write: once a row is written under a key,
/// a scan of its table over a time range that holds its timestamp gives the
/// row back, whatever the table held before.
pub proof fn law_scan_gives_back_write(before: Map<RowKeyView, RowValueView>, k: RowKeyView, v: RowValueView,
    table: Seq<u8>, start: i64, end: i64, scan: Seq<(RowKeyView, RowValueView)>)
    requires
        in_scan((k, v), table, start, end),
        forall|k2: RowKeyView, v2: RowValueView| #[trigger] scan.contains((k2, v2)) <==> (
            before.insert(k, v).contains_key(k2) && before.insert(k, v)[k2] == v2 && in_scan((k2, v2), table, start, end)),
    ensures
        scan.contains((k, v)),
{
    assert(before.insert(k, v).contains_key(k) && before.insert(k, v)[k] == v);
}

impl MemTable {
    /// Copies of the rows of a table with timestamps from `start` to `end`
    /// (excluded), in key order.
    pub fn scan(&self, table: &[u8], start: i64, end: i64) -> (r: Result<Vec<(RowKey, RowValue)>, Error>)
        requires
            start <= end,
        ensures
            r matches Ok(v) && entries_view(v@) == scanned(self.entries(), table@, start, end),
            views_sorted(self.entries()),
            r matches Ok(v) && forall|k: RowKeyView, x: RowValueView| #[trigger] entries_view(v@).contains((k, x)) <==> (
                self.contents().contains_key(k) && self.contents()[k] == x && in_scan((k, x), table@, start, end)),
    {
        proof { use_type_invariant(self); }
        let mut out: Vec<(RowKey, RowValue)> = Vec::new();
        let mut i: usize = 0;
        while i < self.data.len()
            invariant
                i <= self.data@.len(),
                entries_view(out@) == scanned(entries_view(self.data@).take(i as int), table@, start, end),
            decreases self.data@.len() - i,
        {
            proof {
                let t = entries_view(self.data@).take(i + 1);
                assert(t.drop_last() =~= entries_view(self.data@).take(i as int));
                assert(t.last() == (self.data@[i as int].0@, self.data@[i as int].1@));
            }
            let k = &self.data[i].0;
            let t_eq = match compare_bytes(k.table.as_slice(), table) { KeyOrder::Equal => true, _ => false };
            if t_eq && start <= k.timestamp && k.timestamp < end {
                let e = (k.duplicate(), self.data[i].1.duplicate());
                proof { assert(entries_view(out@.push(e)) =~= entries_view(out@).push((e.0@, e.1@))); }
                out.push(e);
            }
            i = i + 1;
        }
        proof {
            assert(entries_view(self.data@).take(self.data@.len() as int) =~= entries_view(self.data@));
            assert forall|i: int, j: int| 0 <= i < j < self.entries().len()
                implies key_lt(#[trigger] self.entries()[i].0, #[trigger] self.entries()[j].0) by {
                assert(key_lt(self.data@[i].0@, self.data@[j].0@));
            }
            lemma_sorted_unique(self.data@);
            lemma_keyed_facts(self.data@, entry_key(), entry_val());
            let ent = self.entries();
            assert forall|k: RowKeyView, x: RowValueView| #[trigger] entries_view(out@).contains((k, x)) <==> (
                self.contents().contains_key(k) && self.contents()[k] == x && in_scan((k, x), table@, start, end)) by {
                lemma_scanned_members(ent, table@, start, end, (k, x));
                if ent.contains((k, x)) {
                    let i = choose|i: int| 0 <= i < ent.len() && ent[i] == (k, x);
                    assert(entry_key()(self.data@[i]) == k);
                    assert(self.contents()[entry_key()(self.data@[i])] == entry_val()(self.data@[i]));
                }
                if self.contents().contains_key(k) && self.contents()[k] == x {
                    let i = choose|i: int| 0 <= i < self.data@.len() && entry_key()(self.data@[i]) == k;
                    assert(self.contents()[entry_key()(self.data@[i])] == entry_val()(self.data@[i]));
                    assert(ent[i] == (k, x));
                }
            }
        }
        Ok(out)
    }

    /// The estimated size of what was written since the last flush.
    pub fn size(&self) -> (r: u64)
        ensures
            r == self.size_estimate(),
    {
        self.size
    }

    /// The number of rows written since the last flush.
    pub fn row_count(&self) -> (r: u64)
        ensures
            r == self.rows_written(),
    {
        self.row_count
    }

    /// Whether the table has reached its size limit.
    pub fn should_flush(&self) -> (r: bool)
        ensures
            r == (self.size_estimate() >= self.size_limit()),
    {
        self.size >= self.max_size
    }

    /// Takes every row out, in key order, and starts counting afresh.
    pub fn flush(&mut self) -> (r: Result<Vec<(RowKey, RowValue)>, Error>)
        ensures
            r matches Ok(v) && entries_view(v@) == old(self).entries(),
            r matches Ok(v) && forall|k: RowKeyView, x: RowValueView| #[trigger] entries_view(v@).contains((k, x)) <==> (
                old(self).contents().contains_key(k) && old(self).contents()[k] == x),
            views_sorted(old(self).entries()),
            final(self).entries().len() == 0,
            final(self).contents() == Map::<RowKeyView, RowValueView>::empty(),
            final(self).size_estimate() == 0,
            final(self).rows_written() == 0,
            final(self).size_limit() == old(self).size_limit(),
    {
        proof { use_type_invariant(&*self); }
        proof {
            assert forall|i: int, j: int| 0 <= i < j < old(self).entries().len()
                implies key_lt(#[trigger] old(self).entries()[i].0, #[trigger] old(self).entries()[j].0) by {
                assert(key_lt(self.data@[i].0@, self.data@[j].0@));
            }
            lemma_entries_contents(self.data@);
        }
        let mut data: Vec<(RowKey, RowValue)> = Vec::new();
        std::mem::swap(&mut data, &mut self.data);
        self.size = 0;
        self.row_count = 0;
        Ok(data)
    }
}


// ----- series keys -----

/// Whether one text comes before another, compared byte by byte as UTF-8.
pub open spec fn text_lt(a: Seq<char>, b: Seq<char>) -> bool {
    bytes_lt(encode_utf8(a), encode_utf8(b))
}

/// Whether a tag comes no later than another: by name, then by value.
pub open spec fn tag_le(a: (Seq<char>, Seq<char>), b: (Seq<char>, Seq<char>)) -> bool {
    text_lt(a.0, b.0) || (a.0 == b.0 && !text_lt(b.1, a.1))
}

/// Whether tags are in order.
pub open spec fn tags_sorted(s: Seq<(Seq<char>, Seq<char>)>) -> bool {
    forall|i: int, j: int| 0 <= i <= j < s.len() ==> tag_le(#[trigger] s[i], #[trigger] s[j])
}

/// The text of tags: `name=value` for each, joined by commas.
pub open spec fn tags_text(s: Seq<(Seq<char>, Seq<char>)>) -> Seq<char> {
    joined(s.map_values(|t: (Seq<char>, Seq<char>)| t.0 + "="@ + t.1), ","@)
}

proof fn lemma_text_order(a: Seq<char>, b: Seq<char>, c: Seq<char>)
    ensures
        !text_lt(a, a),
        a != b ==> (text_lt(a, b) || text_lt(b, a)),
        !(text_lt(a, b) && text_lt(b, a)),
        text_lt(a, b) && text_lt(b, c) ==> text_lt(a, c),
{
    lemma_bytes_order(encode_utf8(a), encode_utf8(b), encode_utf8(c));
    vstd::utf8::encode_utf8_decode_utf8(a);
    vstd::utf8::encode_utf8_decode_utf8(b);
}

proof fn lemma_tag_order(a: (Seq<char>, Seq<char>), b: (Seq<char>, Seq<char>), c: (Seq<char>, Seq<char>))
    ensures
        tag_le(a, b) || tag_le(b, a),
        tag_le(a, b) && tag_le(b, c) ==> tag_le(a, c),
{
    lemma_text_order(a.0, b.0, c.0);
    lemma_text_order(b.0, a.0, c.0);
    lemma_text_order(a.0, c.0, b.0);
    lemma_text_order(a.1, b.1, c.1);
    lemma_text_order(a.1, c.1, b.1);
    lemma_text_order(b.1, a.1, c.1);
    lemma_text_order(b.1, c.1, a.1);
    lemma_text_order(c.1, a.1, b.1);
    lemma_text_order(c.1, b.1, a.1);
}

/// The characters of each tag.
pub open spec fn tags_view(v: Seq<(String, String)>) -> Seq<(Seq<char>, Seq<char>)> {
    v.map_values(|t: (String, String)| (t.0@, t.1@))
}

fn tag_before(a: &(String, String), b: &(String, String)) -> (r: bool)
    ensures
        r == !tag_le((b.0@, b.1@), (a.0@, a.1@)),
{
    proof { lemma_text_order(a.0@, b.0@, a.0@); lemma_text_order(a.1@, b.1@, a.1@); }
    match compare_bytes(a.0.as_str().as_bytes(), b.0.as_str().as_bytes()) {
        KeyOrder::Less => true,
        KeyOrder::Greater => false,
        KeyOrder::Equal => {
            proof {
                vstd::utf8::encode_utf8_decode_utf8(a.0@);
                vstd::utf8::encode_utf8_decode_utf8(b.0@);
            }
            match compare_bytes(a.1.as_str().as_bytes(), b.1.as_str().as_bytes()) {
                KeyOrder::Less => true,
                _ => false,
            }
        },
    }
}

/// Copies of tags in order, by name then value.
pub fn sort_tags(tags: &Vec<(String, String)>) -> (r: Vec<(String, String)>)
    ensures
        tags_sorted(tags_view(r@)),
        tags_view(r@).to_multiset() == tags_view(tags@).to_multiset(),
{
    let mut out: Vec<(String, String)> = Vec::new();
    let mut i: usize = 0;
    proof {
        broadcast use vstd::seq_lib::group_to_multiset_ensures;
        assert(tags_view(tags@).take(0) =~= Seq::<(Seq<char>, Seq<char>)>::empty());
        assert(tags_view(out@) =~= Seq::<(Seq<char>, Seq<char>)>::empty());
    }
    while i < tags.len()
        invariant
            i <= tags@.len(),
            tags_sorted(tags_view(out@)),
            tags_view(out@).to_multiset() == tags_view(tags@).take(i as int).to_multiset(),
        decreases tags@.len() - i,
    {
        let p = (tags[i].0.clone(), tags[i].1.clone());
        let ghost pv = (p.0@, p.1@);
        let mut k: usize = 0;
        while k < out.len() && !tag_before(&p, &out[k])
            invariant
                k <= out@.len(),
                pv == (p.0@, p.1@),
                forall|j: int| 0 <= j < k ==> tag_le(#[trigger] tags_view(out@)[j], pv),
            decreases out@.len() - k,
        {
            k = k + 1;
        }
        let ghost before = tags_view(out@);
        out.insert(k, p);
        proof {
            let after = tags_view(out@);
            assert(after =~= before.take(k as int) + seq![pv] + before.skip(k as int));
            if k < before.len() {
                assert(!tag_le(before[k as int], pv));
                lemma_tag_order(pv, before[k as int], pv);
            }
            assert forall|a: int, b: int| 0 <= a <= b < after.len() implies tag_le(#[trigger] after[a], #[trigger] after[b]) by {
                if a == b {
                    lemma_tag_order(after[a], after[a], after[a]);
                } else if b < k {
                    assert(after[a] == before[a] && after[b] == before[b]);
                } else if b == k {
                    assert(after[a] == before[a]);
                } else if a < k {
                    assert(after[a] == before[a] && after[b] == before[b - 1]);
                    lemma_tag_order(before[a], pv, before[b - 1]);
                    lemma_tag_order(pv, before[k as int], before[b - 1]);
                    lemma_tag_order(before[a], before[k as int], before[b - 1]);
                } else if a == k {
                    assert(after[b] == before[b - 1]);
                    lemma_tag_order(pv, before[k as int], before[b - 1]);
                } else {
                    assert(after[a] == before[a - 1] && after[b] == before[b - 1]);
                }
            }
            assert(before =~= before.take(k as int) + before.skip(k as int));
            vstd::seq_lib::lemma_multiset_commutative(before.take(k as int), before.skip(k as int));
            vstd::seq_lib::lemma_multiset_commutative(before.take(k as int) + seq![pv], before.skip(k as int));
            vstd::seq_lib::lemma_multiset_commutative(before.take(k as int), seq![pv]);
            assert(seq![pv].to_multiset() =~= vstd::multiset::Multiset::empty().insert(pv)) by {
                broadcast use vstd::seq_lib::group_to_multiset_ensures;
                assert(seq![pv] =~= Seq::<(Seq<char>, Seq<char>)>::empty().push(pv));
            }
            let t = tags_view(tags@).take(i + 1);
            assert(t =~= tags_view(tags@).take(i as int).push(pv));
            broadcast use vstd::seq_lib::group_to_multiset_ensures;
        }
        i = i + 1;
    }
    proof { assert(tags_view(tags@).take(tags@.len() as int) =~= tags_view(tags@)); }
    out
}

/// Appends the text of tags in order.
fn append_tags_text(s: &mut String, tags: &Vec<(String, String)>)
    ensures
        final(s)@ == old(s)@ + tags_text(tags_view(tags@)),
{
    let ghost items = tags_view(tags@).map_values(|t: (Seq<char>, Seq<char>)| t.0 + "="@ + t.1);
    let mut i: usize = 0;
    while i < tags.len()
        invariant
            i <= tags@.len(),
            items == tags_view(tags@).map_values(|t: (Seq<char>, Seq<char>)| t.0 + "="@ + t.1),
            s@ == old(s)@ + joined(items.take(i as int), ","@),
        decreases tags@.len() - i,
    {
        proof {
            let t = items.take(i + 1);
            assert(t.drop_last() =~= items.take(i as int));
            assert(t.last() == tags@[i as int].0@ + "="@ + tags@[i as int].1@);
        }
        let ghost before = s@;
        if i > 0 {
            push_char(s, ',');
        }
        push_str(s, tags[i].0.as_str());
        push_char(s, '=');
        push_str(s, tags[i].1.as_str());
        proof {
            reveal_strlit("=");
            reveal_strlit(",");
            let item = tags@[i as int].0@ + "="@ + tags@[i as int].1@;
            if i > 0 {
                assert(s@ =~= before + ","@ + item);
            } else {
                assert(s@ =~= before + item);
                assert(joined(items.take(1), ","@) == items.take(1)[0]);
            }
        }
        i = i + 1;
    }
    proof { assert(items.take(tags@.len() as int) =~= items); }
}

/// The series key of tags: their text, in order, as UTF-8 bytes.
pub fn encode_series_key(tags: &Vec<(String, String)>) -> (r: Vec<u8>)
    ensures
        exists|sorted: Seq<(Seq<char>, Seq<char>)>| tags_sorted(sorted)
            && sorted.to_multiset() == tags_view(tags@).to_multiset()
            && r@ == encode_utf8(#[trigger] tags_text(sorted)),
{
    let sorted = sort_tags(tags);
    let mut text = String::new();
    append_tags_text(&mut text, &sorted);
    proof { assert(Seq::<char>::empty() + tags_text(tags_view(sorted@)) =~= tags_text(tags_view(sorted@))); }
    text.as_str().as_bytes_vec()
}

/// The series key of a measurement's tags: the measurement, `_`, and the
/// tags' text in order, as UTF-8 bytes.
pub fn encode_measurement_series_key(measurement: &str, tags: &Vec<(String, String)>) -> (r: Vec<u8>)
    ensures
        exists|sorted: Seq<(Seq<char>, Seq<char>)>| tags_sorted(sorted)
            && sorted.to_multiset() == tags_view(tags@).to_multiset()
            && r@ == encode_utf8(measurement@ + "_"@ + #[trigger] tags_text(sorted)),
{
    let sorted = sort_tags(tags);
    let mut text = measurement.to_owned();
    push_char(&mut text, '_');
    append_tags_text(&mut text, &sorted);
    proof {
        reveal_strlit("_");
        assert(text@ =~= measurement@ + "_"@ + tags_text(tags_view(sorted@)));
    }
    text.as_str().as_bytes_vec()
}

} // verus!
