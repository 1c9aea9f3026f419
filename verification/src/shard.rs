//! Shards: their metadata, the registry of the shards of a node with its
//! status changes, splits and statistics, and the mapping of timestamps to
//! shards and of shards to nodes.

use vstd::prelude::*;
use std::sync::Arc;
use crate::error::Error;
use crate::clock::unix_time_seconds;
use crate::handles::share;
use crate::keyed::{keyed, keys_unique, lemma_keyed_facts, lemma_keyed_push, lemma_keyed_remove, lemma_keyed_absent};
use crate::text::{dec_nat, path_join, join_path, push_str, append_u64, u64_to_string};

verus! {

/// The life-cycle state of a shard.
#[derive(Debug, Clone, Copy, PartialEq, Eq, Structural)]
pub enum ShardStatus {
    Active,
    Inactive,
    ReadOnly,
    Migrating,
    Spliting,
}

/// The name of a status, as the statistics count it.
pub open spec fn status_label(s: ShardStatus) -> Seq<char> {
    match s {
        ShardStatus::Active => "Active"@,
        ShardStatus::Inactive => "Inactive"@,
        ShardStatus::ReadOnly => "ReadOnly"@,
        ShardStatus::Migrating => "Migrating"@,
        ShardStatus::Spliting => "Spliting"@,
    }
}

impl ShardStatus {
    /// The name of the status.
    pub fn label(&self) -> (r: &'static str)
        ensures
            r@ == status_label(*self),
    {
        match self {
            ShardStatus::Active => "Active",
            ShardStatus::Inactive => "Inactive",
            ShardStatus::ReadOnly => "ReadOnly",
            ShardStatus::Migrating => "Migrating",
            ShardStatus::Spliting => "Spliting",
        }
    }
}

/// The default span of time that one shard covers: a week.
pub const DEFAULT_SHARD_DURATION_SECONDS: u64 = 604800;

/// Metadata of one shard.
#[derive(Debug, Clone)]
pub struct ShardInfo {
    pub id: u64,
    pub database: String,
    pub retention_policy: String,
    pub path: String,
    pub status: ShardStatus,
    pub replica_count: u32,
    pub shard_duration_seconds: u64,
    pub tier: u8,
    pub size_bytes: u64,
    pub row_count: u64,
    pub created_at: i64,
    pub updated_at: i64,
}

/// The abstract value of shard metadata.
pub struct ShardInfoView {
    pub id: u64,
    pub database: Seq<char>,
    pub retention_policy: Seq<char>,
    pub path: Seq<char>,
    pub status: ShardStatus,
    pub replica_count: u32,
    pub shard_duration_seconds: u64,
    pub tier: u8,
    pub size_bytes: u64,
    pub row_count: u64,
    pub created_at: i64,
    pub updated_at: i64,
}

impl View for ShardInfo {
    type V = ShardInfoView;

    open spec fn view(&self) -> ShardInfoView {
        ShardInfoView {
            id: self.id,
            database: self.database@,
            retention_policy: self.retention_policy@,
            path: self.path@,
            status: self.status,
            replica_count: self.replica_count,
            shard_duration_seconds: self.shard_duration_seconds,
            tier: self.tier,
            size_bytes: self.size_bytes,
            row_count: self.row_count,
            created_at: self.created_at,
            updated_at: self.updated_at,
        }
    }
}

/// Whether `v` is a freshly made shard record with the given names and
/// path, made at a (non-negative) time.
pub open spec fn fresh_shard(v: ShardInfoView, id: u64, database: Seq<char>, retention_policy: Seq<char>, path: Seq<char>) -> bool {
    &&& v.id == id
    &&& v.database == database
    &&& v.retention_policy == retention_policy
    &&& v.path == path
    &&& v.status == ShardStatus::Active
    &&& v.replica_count == 1
    &&& v.shard_duration_seconds == DEFAULT_SHARD_DURATION_SECONDS
    &&& v.tier == 0
    &&& v.size_bytes == 0
    &&& v.row_count == 0
    &&& v.created_at == v.updated_at
    &&& v.created_at >= 0
}

/// Whether the start and end of a shard's time range fit in `i64`.
pub open spec fn time_range_fits(v: ShardInfoView) -> bool {
    let start = (v.id as i64) * (v.shard_duration_seconds as i64);
    &&& i64::MIN <= start <= i64::MAX
    &&& i64::MIN <= start + (v.shard_duration_seconds as i64) <= i64::MAX
}

/// The time range of a shard: its id times its duration, for one duration
/// (each number read as `i64`).
pub open spec fn shard_time_range(v: ShardInfoView) -> (int, int) {
    let start = (v.id as i64) * (v.shard_duration_seconds as i64);
    (start, start + (v.shard_duration_seconds as i64))
}

impl ShardInfo {
    /// Active metadata of a new shard: one replica, a week long, in the
    /// first tier, empty, made now.
    pub fn new(id: u64, database: &str, retention_policy: &str, path: String) -> (r: Self)
        ensures
            fresh_shard(r@, id, database@, retention_policy@, path@),
    {
        let now = unix_time_seconds();
        ShardInfo {
            id,
            database: database.to_owned(),
            retention_policy: retention_policy.to_owned(),
            path,
            status: ShardStatus::Active,
            replica_count: 1,
            shard_duration_seconds: DEFAULT_SHARD_DURATION_SECONDS,
            tier: 0,
            size_bytes: 0,
            row_count: 0,
            created_at: now,
            updated_at: now,
        }
    }

    /// A copy with the same abstract value.
    pub fn duplicate(&self) -> (r: Self)
        ensures
            r@ == self@,
    {
        ShardInfo {
            id: self.id,
            database: self.database.clone(),
            retention_policy: self.retention_policy.clone(),
            path: self.path.clone(),
            status: self.status,
            replica_count: self.replica_count,
            shard_duration_seconds: self.shard_duration_seconds,
            tier: self.tier,
            size_bytes: self.size_bytes,
            row_count: self.row_count,
            created_at: self.created_at,
            updated_at: self.updated_at,
        }
    }

    /// The same metadata with another replica count.
    pub fn with_replica_count(self, replica_count: u32) -> (r: Self)
        ensures
            r == (ShardInfo { replica_count, ..self }),
    {
        ShardInfo { replica_count, ..self }
    }

    /// The same metadata with another duration.
    pub fn with_shard_duration(self, duration: u64) -> (r: Self)
        ensures
            r == (ShardInfo { shard_duration_seconds: duration, ..self }),
    {
        ShardInfo { shard_duration_seconds: duration, ..self }
    }

    /// The same metadata with another status.
    pub fn with_status(self, status: ShardStatus) -> (r: Self)
        ensures
            r == (ShardInfo { status, ..self }),
    {
        ShardInfo { status, ..self }
    }

    /// The same metadata with another tier.
    pub fn with_tier(self, tier: u8) -> (r: Self)
        ensures
            r == (ShardInfo { tier, ..self }),
    {
        ShardInfo { tier, ..self }
    }

    /// The same metadata with another size.
    pub fn with_size(self, size: u64) -> (r: Self)
        ensures
            r == (ShardInfo { size_bytes: size, ..self }),
    {
        ShardInfo { size_bytes: size, ..self }
    }

    /// The same metadata with another row count.
    pub fn with_row_count(self, count: u64) -> (r: Self)
        ensures
            r == (ShardInfo { row_count: count, ..self }),
    {
        ShardInfo { row_count: count, ..self }
    }

    /// Stamps the metadata with the current time.
    pub fn update_metadata(&mut self)
        ensures
            *final(self) == (ShardInfo { updated_at: final(self).updated_at, ..*old(self) }),
            final(self).updated_at >= 0,
    {
        self.updated_at = unix_time_seconds();
    }

    /// Whether the shard is active.
    pub fn is_active(&self) -> (r: bool)
        ensures
            r == (self.status == ShardStatus::Active),
    {
        self.status == ShardStatus::Active
    }

    /// Whether the shard is read-only.
    pub fn is_readonly(&self) -> (r: bool)
        ensures
            r == (self.status == ShardStatus::ReadOnly),
    {
        self.status == ShardStatus::ReadOnly
    }

    /// Whether the shard is being migrated.
    pub fn is_migrating(&self) -> (r: bool)
        ensures
            r == (self.status == ShardStatus::Migrating),
    {
        self.status == ShardStatus::Migrating
    }

    /// The span of time the shard covers: from its id times its duration,
    /// for one duration.
    pub fn time_range(&self) -> (r: (i64, i64))
        requires
            time_range_fits(self@),
        ensures
            r.0 == shard_time_range(self@).0,
            r.1 == shard_time_range(self@).1,
    {
        let start = self.id as i64 * self.shard_duration_seconds as i64;
        let end = start + self.shard_duration_seconds as i64;
        (start, end)
    }
}

/// The id under which a shard is registered.
pub open spec fn shard_key() -> spec_fn(Arc<ShardInfo>) -> u64 {
    |s: Arc<ShardInfo>| s@.id
}

/// The value of a registered shard: its metadata.
pub open spec fn shard_val() -> spec_fn(Arc<ShardInfo>) -> ShardInfoView {
    |s: Arc<ShardInfo>| s@
}

/// The shards of a list that belong to a database and, when one is given,
/// to a retention policy, in order.
pub open spec fn select_shards(s: Seq<ShardInfoView>, database: Seq<char>, rp: Option<Seq<char>>) -> Seq<ShardInfoView>
    decreases s.len(),
{
    if s.len() == 0 {
        s
    } else {
        let rest = select_shards(s.drop_last(), database, rp);
        let x = s.last();
        let keep = x.database == database && match rp {
            Some(p) => x.retention_policy == p,
            None => true,
        };
        if keep { rest.push(x) } else { rest }
    }
}

/// Whether a shard's time range contains a timestamp.
pub open spec fn covers(v: ShardInfoView, timestamp: i64) -> bool {
    shard_time_range(v).0 <= timestamp < shard_time_range(v).1
}

/// Whether scanning the list for the shard that covers a timestamp computes
/// every time range it looks at without overflow.
pub open spec fn scan_fits(s: Seq<ShardInfoView>, timestamp: i64) -> bool
    decreases s.len(),
{
    if s.len() == 0 {
        true
    } else {
        time_range_fits(s[0]) && (covers(s[0], timestamp) || scan_fits(s.drop_first(), timestamp))
    }
}

/// The first shard of the list that covers the timestamp.
pub open spec fn first_covering(s: Seq<ShardInfoView>, timestamp: i64) -> Option<ShardInfoView>
    decreases s.len(),
{
    if s.len() == 0 {
        None
    } else if covers(s[0], timestamp) {
        Some(s[0])
    } else {
        first_covering(s.drop_first(), timestamp)
    }
}

/// The sum of the sizes of a list of shards.
pub open spec fn shard_sizes(s: Seq<ShardInfoView>) -> nat
    decreases s.len(),
{
    if s.len() == 0 { 0 } else { (shard_sizes(s.drop_last()) + s.last().size_bytes) as nat }
}

/// The sum of the row counts of a list of shards.
pub open spec fn shard_rows(s: Seq<ShardInfoView>) -> nat
    decreases s.len(),
{
    if s.len() == 0 { 0 } else { (shard_rows(s.drop_last()) + s.last().row_count) as nat }
}

/// The number of shards of a list that have a status.
pub open spec fn status_count(s: Seq<ShardInfoView>, status: ShardStatus) -> nat
    decreases s.len(),
{
    if s.len() == 0 {
        0
    } else {
        (status_count(s.drop_last(), status) + if s.last().status == status { 1nat } else { 0nat }) as nat
    }
}

/// The count recorded for a name in a list of named counts: that of the
/// first entry with the name, zero when there is none.
pub open spec fn lookup_count(s: Seq<(String, usize)>, name: Seq<char>) -> usize
    decreases s.len(),
{
    if s.len() == 0 {
        0
    } else if s[0].0@ == name {
        s[0].1
    } else {
        lookup_count(s.drop_first(), name)
    }
}

/// The "Shard {id}{tail}" message of the registry's errors.
pub open spec fn shard_message(shard_id: u64, tail: Seq<char>) -> Seq<char> {
    "Shard "@ + dec_nat(shard_id as nat) + tail
}

fn shard_error_text(shard_id: u64, tail: &str) -> (r: String)
    ensures
        r@ == shard_message(shard_id, tail@),
{
    let mut s = String::new();
    push_str(&mut s, "Shard ");
    append_u64(&mut s, shard_id);
    push_str(&mut s, tail);
    proof { assert(Seq::<char>::empty() + "Shard "@ =~= "Shard "@); }
    s
}

/// The shards of one node, one per id.
pub struct ShardManager {
    shards: Vec<Arc<ShardInfo>>,
    data_dir: String,
}

impl ShardManager {
    #[verifier::type_invariant]
    closed spec fn inv(&self) -> bool {
        keys_unique(self.shards@, shard_key())
    }

    /// The registered shards by id.
    pub closed spec fn shards(&self) -> Map<u64, ShardInfoView> {
        keyed(self.shards@, shard_key(), shard_val())
    }

    /// The registered shards in the order the registry keeps them.
    pub closed spec fn stored(&self) -> Seq<ShardInfoView> {
        self.shards@.map_values(|s: Arc<ShardInfo>| s@)
    }

    /// The directory under which shard directories lie.
    pub closed spec fn spec_data_dir(&self) -> Seq<char> {
        self.data_dir@
    }

    proof fn lemma_stored(&self)
        requires
            keys_unique(self.shards@, shard_key()),
        ensures
            self.stored().len() == self.shards().dom().len(),
            forall|i: int| 0 <= i < self.stored().len() ==> #[trigger] self.shards().contains_key(self.stored()[i].id)
                && self.shards()[self.stored()[i].id] == self.stored()[i],
            forall|k: u64| #[trigger] self.shards().contains_key(k) ==> exists|i: int| 0 <= i < self.stored().len() && self.stored()[i].id == k,
            forall|i: int, j: int| 0 <= i < j < self.stored().len() ==> self.stored()[i].id != self.stored()[j].id,
    {
        lemma_keyed_facts(self.shards@, shard_key(), shard_val());
        assert forall|i: int| 0 <= i < self.stored().len() implies #[trigger] self.shards().contains_key(self.stored()[i].id)
            && self.shards()[self.stored()[i].id] == self.stored()[i] by {
            assert(shard_key()(self.shards@[i]) == self.stored()[i].id);
            assert(self.shards()[shard_key()(self.shards@[i])] == shard_val()(self.shards@[i]));
        }
        assert forall|k: u64| #[trigger] self.shards().contains_key(k) implies exists|i: int| 0 <= i < self.stored().len() && self.stored()[i].id == k by {
            let i = choose|i: int| 0 <= i < self.shards@.len() && shard_key()(self.shards@[i]) == k;
            assert(self.stored()[i].id == k);
        }
        assert forall|i: int, j: int| 0 <= i < j < self.stored().len() implies self.stored()[i].id != self.stored()[j].id by {
            assert(shard_key()(self.shards@[i]) != shard_key()(self.shards@[j]));
        }
    }

    /// An empty registry over the given directory.
    pub fn new(data_dir: String) -> (r: Self)
        ensures
            r.shards() == Map::<u64, ShardInfoView>::empty(),
            r.stored().len() == 0,
            r.spec_data_dir() == data_dir@,
    {
        let r = ShardManager { shards: Vec::new(), data_dir };
        assert(r.shards() =~= Map::<u64, ShardInfoView>::empty());
        r
    }

    /// The directory of a shard: the data directory, the database, the
    /// retention policy and the shard id, joined as path components.
    pub fn shard_path(&self, shard_id: u64, database: &str, retention_policy: &str) -> (r: String)
        ensures
            r@ == path_join(path_join(path_join(self.spec_data_dir(), database@), retention_policy@), dec_nat(shard_id as nat)),
    {
        let a = join_path(self.data_dir.as_str(), database);
        let b = join_path(a.as_str(), retention_policy);
        let id = u64_to_string(shard_id);
        join_path(b.as_str(), id.as_str())
    }

    /// Registers a new shard under its id, replacing any shard with that
    /// id, and returns it. Its directory is the one `shard_path` names.
    pub fn create_shard(&mut self, shard_id: u64, database: &str, retention_policy: &str) -> (r: Result<Arc<ShardInfo>, Error>)
        ensures
            r matches Ok(s) && fresh_shard(s@, shard_id, database@, retention_policy@,
                path_join(path_join(path_join(old(self).spec_data_dir(), database@), retention_policy@), dec_nat(shard_id as nat)))
                && final(self).shards() == old(self).shards().insert(shard_id, s@),
            final(self).spec_data_dir() == old(self).spec_data_dir(),
    {
        let shard_path = self.shard_path(shard_id, database, retention_policy);
        let info = ShardInfo::new(shard_id, database, retention_policy, shard_path);
        let arc = Arc::new(info);
        self.insert_shard(share(&arc));
        Ok(arc)
    }

    fn insert_shard(&mut self, s: Arc<ShardInfo>)
        ensures
            final(self).shards() == old(self).shards().insert(s@.id, s@),
            final(self).spec_data_dir() == old(self).spec_data_dir(),
    {
        let id = s.id;
        self.remove_shard(id);
        proof {
            use_type_invariant(&*self);
            lemma_keyed_push(self.shards@, shard_key(), shard_val(), s);
        }
        let mut shards: Vec<Arc<ShardInfo>> = Vec::new();
        std::mem::swap(&mut shards, &mut self.shards);
        shards.push(s);
        self.shards = shards;
        proof {
            assert(old(self).shards().remove(id).insert(id, s@) =~= old(self).shards().insert(id, s@));
        }
    }

    /// The shard with the given id.
    pub fn get_shard(&self, shard_id: u64) -> (r: Option<Arc<ShardInfo>>)
        ensures
            match r {
                Some(s) => self.shards().contains_key(shard_id) && self.shards()[shard_id] == s@ && s@.id == shard_id,
                None => !self.shards().contains_key(shard_id),
            },
    {
        proof { use_type_invariant(self); }
        let mut i: usize = 0;
        while i < self.shards.len()
            invariant
                i <= self.shards@.len(),
                keys_unique(self.shards@, shard_key()),
                forall|j: int| 0 <= j < i ==> self.shards@[j]@.id != shard_id,
            decreases self.shards@.len() - i,
        {
            if self.shards[i].id == shard_id {
                proof {
                    lemma_keyed_facts(self.shards@, shard_key(), shard_val());
                    assert(shard_key()(self.shards@[i as int]) == shard_id);
                    assert(self.shards()[shard_key()(self.shards@[i as int])] == shard_val()(self.shards@[i as int]));
                }
                return Some(share(&self.shards[i]));
            }
            i = i + 1;
        }
        proof { lemma_keyed_absent(self.shards@, shard_key(), shard_val(), shard_id); }
        None
    }

    /// The ids of the registered shards, each once, in the order the
    /// registry keeps them.
    pub fn get_all_shards(&self) -> (r: Vec<u64>)
        ensures
            r@.len() == self.stored().len(),
            forall|i: int| 0 <= i < r@.len() ==> r@[i] == #[trigger] self.stored()[i].id,
            r@.to_set() == self.shards().dom(),
            r@.no_duplicates(),
    {
        proof {
            use_type_invariant(self);
            self.lemma_stored();
        }
        let mut r: Vec<u64> = Vec::new();
        let mut i: usize = 0;
        while i < self.shards.len()
            invariant
                i <= self.shards@.len(),
                r@.len() == i,
                forall|j: int| 0 <= j < i ==> #[trigger] r@[j] == self.stored()[j].id,
            decreases self.shards@.len() - i,
        {
            r.push(self.shards[i].id);
            i = i + 1;
        }
        proof {
            assert forall|k: u64| r@.to_set().contains(k) <==> self.shards().dom().contains(k) by {
                if r@.to_set().contains(k) {
                    let j = choose|j: int| 0 <= j < r@.len() && r@[j] == k;
                    assert(self.shards().contains_key(self.stored()[j].id));
                }
                if self.shards().contains_key(k) {
                    let j = choose|j: int| 0 <= j < self.stored().len() && self.stored()[j].id == k;
                    assert(r@[j] == k);
                }
            }
            assert(r@.to_set() =~= self.shards().dom());
        }
        r
    }

    /// Unregisters the shard with the given id; true when there was one.
    pub fn remove_shard(&mut self, shard_id: u64) -> (r: bool)
        ensures
            r == old(self).shards().contains_key(shard_id),
            final(self).shards() == old(self).shards().remove(shard_id),
            final(self).spec_data_dir() == old(self).spec_data_dir(),
    {
        proof { use_type_invariant(&*self); }
        let n = self.shards.len();
        let mut i: usize = 0;
        while i < n
            invariant
                n == self.shards@.len(),
                i <= n,
                *self == *old(self),
                keys_unique(self.shards@, shard_key()),
                forall|j: int| 0 <= j < i ==> self.shards@[j]@.id != shard_id,
            decreases n - i,
        {
            if self.shards[i].id == shard_id {
                let ghost before = self.shards@;
                proof {
                    lemma_keyed_facts(before, shard_key(), shard_val());
                    lemma_keyed_remove(before, shard_key(), shard_val(), i as int);
                    assert(shard_key()(before[i as int]) == shard_id);
                }
                let mut shards: Vec<Arc<ShardInfo>> = Vec::new();
                std::mem::swap(&mut shards, &mut self.shards);
                shards.remove(i);
                self.shards = shards;
                return true;
            }
            i = i + 1;
        }
        proof { lemma_keyed_absent(self.shards@, shard_key(), shard_val(), shard_id); }
        false
    }

    /// The number of registered shards.
    pub fn shard_count(&self) -> (r: usize)
        ensures
            r == self.shards().len(),
    {
        proof {
            use_type_invariant(self);
            lemma_keyed_facts(self.shards@, shard_key(), shard_val());
        }
        self.shards.len()
    }

    fn select(&self, database: &str, rp: Option<&str>) -> (r: Vec<Arc<ShardInfo>>)
        ensures
            r@.map_values(|s: Arc<ShardInfo>| s@) == select_shards(self.stored(), database@,
                match rp { Some(p) => Some(p@), None => None }),
    {
        let ghost want = match rp { Some(p) => Some(p@), None => None::<Seq<char>> };
        let mut r: Vec<Arc<ShardInfo>> = Vec::new();
        let mut i: usize = 0;
        while i < self.shards.len()
            invariant
                i <= self.shards@.len(),
                want == match rp { Some(p) => Some(p@), None => None::<Seq<char>> },
                r@.map_values(|s: Arc<ShardInfo>| s@) == select_shards(self.stored().take(i as int), database@, want),
            decreases self.shards@.len() - i,
        {
            proof {
                assert(self.stored().take(i + 1).drop_last() =~= self.stored().take(i as int));
                assert(self.stored().take(i + 1).last() == self.shards@[i as int]@);
            }
            let s = &self.shards[i];
            let keep = crate::text::str_eq(s.database.as_str(), database) && match rp {
                Some(p) => crate::text::str_eq(s.retention_policy.as_str(), p),
                None => true,
            };
            if keep {
                let ghost before = r@;
                r.push(share(s));
                proof {
                    assert(r@.map_values(|s: Arc<ShardInfo>| s@) =~= before.map_values(|s: Arc<ShardInfo>| s@).push(self.shards@[i as int]@));
                }
            }
            i = i + 1;
        }
        proof { assert(self.stored().take(self.shards@.len() as int) =~= self.stored()); }
        r
    }

    /// The shards of a database, in the order the registry keeps them.
    pub fn get_shards_by_db(&self, database: &str) -> (r: Vec<Arc<ShardInfo>>)
        ensures
            r@.map_values(|s: Arc<ShardInfo>| s@) == select_shards(self.stored(), database@, None),
    {
        self.select(database, None)
    }

    /// The shards of a retention policy of a database, in the order the
    /// registry keeps them.
    pub fn get_shards_by_rp(&self, database: &str, rp: &str) -> (r: Vec<Arc<ShardInfo>>)
        ensures
            r@.map_values(|s: Arc<ShardInfo>| s@) == select_shards(self.stored(), database@, Some(rp@)),
    {
        self.select(database, Some(rp))
    }

    /// Sets the status of a registered shard and stamps it with the current
    /// time; false when there is no such shard.
    pub fn update_shard_status(&mut self, shard_id: u64, status: ShardStatus) -> (r: bool)
        ensures
            r == old(self).shards().contains_key(shard_id),
            r ==> final(self).shards() == old(self).shards().insert(shard_id, final(self).shards()[shard_id]),
            r ==> final(self).shards()[shard_id] == (ShardInfoView {
                status,
                updated_at: final(self).shards()[shard_id].updated_at,
                ..old(self).shards()[shard_id]
            }),
            r ==> final(self).shards()[shard_id].updated_at >= 0,
            !r ==> final(self).shards() == old(self).shards(),
            final(self).spec_data_dir() == old(self).spec_data_dir(),
    {
        match self.get_shard(shard_id) {
            Some(shard) => {
                let now = unix_time_seconds();
                let info = ShardInfo {
                    id: shard.id,
                    database: shard.database.clone(),
                    retention_policy: shard.retention_policy.clone(),
                    path: shard.path.clone(),
                    status,
                    replica_count: shard.replica_count,
                    shard_duration_seconds: shard.shard_duration_seconds,
                    tier: shard.tier,
                    size_bytes: shard.size_bytes,
                    row_count: shard.row_count,
                    created_at: shard.created_at,
                    updated_at: now,
                };
                self.insert_shard(Arc::new(info));
                true
            },
            None => false,
        }
    }

    /// Sets the size and row count of a registered shard and stamps it
    /// with the current time; false when there is no such shard.
    pub fn update_shard_metadata(&mut self, shard_id: u64, size_bytes: u64, row_count: u64) -> (r: bool)
        ensures
            r == old(self).shards().contains_key(shard_id),
            r ==> final(self).shards() == old(self).shards().insert(shard_id, final(self).shards()[shard_id]),
            r ==> final(self).shards()[shard_id] == (ShardInfoView {
                size_bytes,
                row_count,
                updated_at: final(self).shards()[shard_id].updated_at,
                ..old(self).shards()[shard_id]
            }),
            r ==> final(self).shards()[shard_id].updated_at >= 0,
            !r ==> final(self).shards() == old(self).shards(),
            final(self).spec_data_dir() == old(self).spec_data_dir(),
    {
        match self.get_shard(shard_id) {
            Some(shard) => {
                let now = unix_time_seconds();
                let info = ShardInfo {
                    id: shard.id,
                    database: shard.database.clone(),
                    retention_policy: shard.retention_policy.clone(),
                    path: shard.path.clone(),
                    status: shard.status,
                    replica_count: shard.replica_count,
                    shard_duration_seconds: shard.shard_duration_seconds,
                    tier: shard.tier,
                    size_bytes,
                    row_count,
                    created_at: shard.created_at,
                    updated_at: now,
                };
                self.insert_shard(Arc::new(info));
                true
            },
            None => false,
        }
    }

    /// Splits a shard in two: the shard keeps half its size and rows and
    /// becomes active again; a new shard with id one million higher, in
    /// its database and retention policy, takes the other half. `None`
    /// when there is no such shard; an error when it is being migrated or
    /// is read-only.
    pub fn split_shard(&mut self, shard_id: u64, split_timestamp: i64) -> (r: Result<Option<(Arc<ShardInfo>, Arc<ShardInfo>)>, Error>)
        requires
            shard_id <= u64::MAX - 1000000,
        ensures
            !old(self).shards().contains_key(shard_id) ==> (r matches Ok(None) && final(self).shards() == old(self).shards()),
            old(self).shards().contains_key(shard_id) && (old(self).shards()[shard_id].status == ShardStatus::Migrating
                || old(self).shards()[shard_id].status == ShardStatus::ReadOnly) ==>
                (r matches Err(Error::InvalidArgument(msg)) && msg@ == shard_message(shard_id, " is not in a splittable state"@)
                && final(self).shards() == old(self).shards()),
            old(self).shards().contains_key(shard_id) && old(self).shards()[shard_id].status != ShardStatus::Migrating
                && old(self).shards()[shard_id].status != ShardStatus::ReadOnly ==> ({
                let before = old(self).shards()[shard_id];
                let new_id = (shard_id + 1000000) as u64;
                r matches Ok(Some((a, b)))
                && a@ == (ShardInfoView {
                    status: ShardStatus::Active,
                    size_bytes: before.size_bytes / 2,
                    row_count: before.row_count / 2,
                    updated_at: a@.updated_at,
                    ..before
                })
                && a@.updated_at >= 0
                && b@ == (ShardInfoView { size_bytes: before.size_bytes / 2, row_count: before.row_count / 2, ..b@ })
                && fresh_shard(ShardInfoView { size_bytes: 0, row_count: 0, ..b@ }, new_id, before.database, before.retention_policy,
                    path_join(path_join(path_join(old(self).spec_data_dir(), before.database), before.retention_policy), dec_nat(new_id as nat)))
                && final(self).shards() == old(self).shards().insert(shard_id, a@).insert(new_id, b@)
            }),
            final(self).spec_data_dir() == old(self).spec_data_dir(),
    {
        let shard = match self.get_shard(shard_id) {
            Some(s) => s,
            None => return Ok(None),
        };
        if shard.is_migrating() || shard.is_readonly() {
            return Err(Error::InvalidArgument(shard_error_text(shard_id, " is not in a splittable state")));
        }
        let _ = self.update_shard_status(shard_id, ShardStatus::Spliting);
        let new_shard_id = shard_id + 1000000;
        let new_path = self.shard_path(new_shard_id, shard.database.as_str(), shard.retention_policy.as_str());
        let new_info = ShardInfo::new(new_shard_id, shard.database.as_str(), shard.retention_policy.as_str(), new_path)
            .with_size(shard.size_bytes / 2)
            .with_row_count(shard.row_count / 2);
        let now = unix_time_seconds();
        let updated_original = ShardInfo {
            id: shard.id,
            database: shard.database.clone(),
            retention_policy: shard.retention_policy.clone(),
            path: shard.path.clone(),
            status: ShardStatus::Active,
            replica_count: shard.replica_count,
            shard_duration_seconds: shard.shard_duration_seconds,
            tier: shard.tier,
            size_bytes: shard.size_bytes / 2,
            row_count: shard.row_count / 2,
            created_at: shard.created_at,
            updated_at: now,
        };
        let a = Arc::new(updated_original);
        let b = Arc::new(new_info);
        let ghost mid = self.shards();
        self.insert_shard(share(&a));
        self.insert_shard(share(&b));
        proof {
            assert(mid == old(self).shards().insert(shard_id, mid[shard_id]));
            assert(old(self).shards().insert(shard_id, mid[shard_id]).insert(shard_id, a@) =~= old(self).shards().insert(shard_id, a@));
            assert(b@ == (ShardInfoView { size_bytes: shard@.size_bytes / 2, row_count: shard@.row_count / 2, ..b@ }));
        }
        Ok(Some((a, b)))
    }

    /// Marks an active shard as migrating. An error when there is no such
    /// shard or it is not active.
    pub fn migrate_shard(&mut self, shard_id: u64, target_node: &str) -> (r: Result<bool, Error>)
        ensures
            !old(self).shards().contains_key(shard_id) ==> (r matches Err(Error::NotFound(msg))
                && msg@ == shard_message(shard_id, " not found"@)
                && final(self).shards() == old(self).shards()),
            old(self).shards().contains_key(shard_id) && old(self).shards()[shard_id].status != ShardStatus::Active ==>
                (r matches Err(Error::InvalidArgument(msg)) && msg@ == shard_message(shard_id, " is not active"@)
                && final(self).shards() == old(self).shards()),
            old(self).shards().contains_key(shard_id) && old(self).shards()[shard_id].status == ShardStatus::Active ==>
                (r matches Ok(true)
                && final(self).shards() == old(self).shards().insert(shard_id, final(self).shards()[shard_id])
                && final(self).shards()[shard_id] == (ShardInfoView {
                    status: ShardStatus::Migrating,
                    updated_at: final(self).shards()[shard_id].updated_at,
                    ..old(self).shards()[shard_id]
                })),
            final(self).spec_data_dir() == old(self).spec_data_dir(),
    {
        let shard = match self.get_shard(shard_id) {
            Some(s) => s,
            None => return Err(Error::NotFound(shard_error_text(shard_id, " not found"))),
        };
        if !shard.is_active() {
            return Err(Error::InvalidArgument(shard_error_text(shard_id, " is not active")));
        }
        let _ = self.update_shard_status(shard_id, ShardStatus::Migrating);
        Ok(true)
    }

    /// Totals over the registered shards: their number, summed size and
    /// rows, and the number of shards of each status.
    pub fn get_shard_stats(&self) -> (r: ShardStats)
        requires
            shard_sizes(self.stored()) <= u64::MAX,
            shard_rows(self.stored()) <= u64::MAX,
        ensures
            r.total_shards == self.shards().len(),
            r.total_size_bytes == shard_sizes(self.stored()),
            r.total_rows == shard_rows(self.stored()),
            forall|st: ShardStatus| #[trigger] lookup_count(r.status_counts@, status_label(st)) == status_count(self.stored(), st),
    {
        proof {
            use_type_invariant(self);
            self.lemma_stored();
        }
        let ghost v = self.stored();
        let mut total_size: u64 = 0;
        let mut total_rows: u64 = 0;
        let mut counts: [usize; 5] = [0, 0, 0, 0, 0];
        let mut i: usize = 0;
        while i < self.shards.len()
            invariant
                v == self.stored(),
                i <= v.len(),
                v.len() == self.shards@.len(),
                shard_sizes(v) <= u64::MAX,
                shard_rows(v) <= u64::MAX,
                total_size == shard_sizes(v.take(i as int)),
                total_rows == shard_rows(v.take(i as int)),
                counts@.len() == 5,
                counts@[0] == status_count(v.take(i as int), ShardStatus::Active),
                counts@[1] == status_count(v.take(i as int), ShardStatus::Inactive),
                counts@[2] == status_count(v.take(i as int), ShardStatus::ReadOnly),
                counts@[3] == status_count(v.take(i as int), ShardStatus::Migrating),
                counts@[4] == status_count(v.take(i as int), ShardStatus::Spliting),
                forall|st: ShardStatus| #[trigger] status_count(v.take(i as int), st) <= i,
            decreases v.len() - i,
        {
            proof {
                assert(v.take(i + 1).drop_last() =~= v.take(i as int));
                lemma_shard_totals_prefix(v, i + 1);
                assert forall|st: ShardStatus| #[trigger] status_count(v.take(i + 1), st) <= i + 1 by {
                    assert(status_count(v.take(i as int), st) <= i);
                }
            }
            let s = &self.shards[i];
            total_size = total_size + s.size_bytes;
            total_rows = total_rows + s.row_count;
            let k: usize = match s.status {
                ShardStatus::Active => 0,
                ShardStatus::Inactive => 1,
                ShardStatus::ReadOnly => 2,
                ShardStatus::Migrating => 3,
                ShardStatus::Spliting => 4,
            };
            counts.set(k, counts[k] + 1);
            i = i + 1;
        }
        proof { assert(v.take(v.len() as int) =~= v); }
        let mut status_counts: Vec<(String, usize)> = Vec::new();
        let statuses = [ShardStatus::Active, ShardStatus::Inactive, ShardStatus::ReadOnly, ShardStatus::Migrating, ShardStatus::Spliting];
        let mut k: usize = 0;
        while k < 5
            invariant
                k <= 5,
                statuses@ == seq![ShardStatus::Active, ShardStatus::Inactive, ShardStatus::ReadOnly, ShardStatus::Migrating, ShardStatus::Spliting],
                counts@.len() == 5,
                forall|t: int| 0 <= t < 5 ==> #[trigger] counts@[t] == status_count(v, statuses@[t]),
                forall|t: int| 0 <= t < status_counts@.len() ==> (#[trigger] status_counts@[t]).1 > 0,
                forall|t: int| 0 <= t < status_counts@.len() ==> exists|u: int| 0 <= u < k && #[trigger] status_counts@[t].0@ == status_label(statuses@[u]),
                forall|u: int| 0 <= u < 5 ==> lookup_count(status_counts@, status_label(#[trigger] statuses@[u]))
                    == if u < k { counts@[u] } else { 0 },
            decreases 5 - k,
        {
            if counts[k] > 0 {
                let name = statuses[k].label().to_owned();
                let ghost before = status_counts@;
                status_counts.push((name, counts[k]));
                proof { lemma_lookup_push(before, (name, counts@[k as int]), k as int, statuses@); }
            } else {
                proof { lemma_labels_distinct(); }
            }
            k = k + 1;
        }
        proof {
            assert forall|st: ShardStatus| #[trigger] lookup_count(status_counts@, status_label(st)) == status_count(v, st) by {
                let u: int = match st {
                    ShardStatus::Active => 0,
                    ShardStatus::Inactive => 1,
                    ShardStatus::ReadOnly => 2,
                    ShardStatus::Migrating => 3,
                    ShardStatus::Spliting => 4,
                };
                assert(statuses@[u] == st);
            }
        }
        ShardStats {
            total_shards: self.shards.len(),
            total_size_bytes: total_size,
            total_rows,
            status_counts,
        }
    }

    /// The first shard of a retention policy of a database, in the order
    /// the registry keeps them, whose time range holds the timestamp.
    pub fn find_shard_by_time(&self, database: &str, rp: &str, timestamp: i64) -> (r: Option<Arc<ShardInfo>>)
        requires
            scan_fits(select_shards(self.stored(), database@, Some(rp@)), timestamp),
        ensures
            match r {
                Some(s) => first_covering(select_shards(self.stored(), database@, Some(rp@)), timestamp) == Some(s@),
                None => first_covering(select_shards(self.stored(), database@, Some(rp@)), timestamp) is None,
            },
    {
        let shards = self.get_shards_by_rp(database, rp);
        let ghost sel = shards@.map_values(|s: Arc<ShardInfo>| s@);
        let mut i: usize = 0;
        proof { assert(sel.skip(0) =~= sel); }
        while i < shards.len()
            invariant
                sel == shards@.map_values(|s: Arc<ShardInfo>| s@),
                sel == select_shards(self.stored(), database@, Some(rp@)),
                i <= sel.len(),
                scan_fits(sel.skip(i as int), timestamp),
                first_covering(sel.skip(i as int), timestamp) == first_covering(sel, timestamp),
            decreases sel.len() - i,
        {
            proof {
                assert(sel.skip(i as int)[0] == shards@[i as int]@);
                assert(sel.skip(i as int).drop_first() =~= sel.skip(i + 1));
            }
            let (start, end) = shards[i].time_range();
            if timestamp >= start && timestamp < end {
                proof {
                    assert(covers(sel.skip(i as int)[0], timestamp));
                    assert(first_covering(sel.skip(i as int), timestamp) == Some(sel.skip(i as int)[0]));
                }
                return Some(share(&shards[i]));
            }
            i = i + 1;
        }
        proof { assert(sel.skip(i as int) =~= Seq::<ShardInfoView>::empty()); }
        None
    }
}

proof fn lemma_shard_totals_prefix(s: Seq<ShardInfoView>, i: int)
    requires
        0 <= i <= s.len(),
    ensures
        shard_sizes(s.take(i)) <= shard_sizes(s),
        shard_rows(s.take(i)) <= shard_rows(s),
    decreases s.len() - i,
{
    if i < s.len() {
        lemma_shard_totals_prefix(s, i + 1);
        assert(s.take(i + 1).drop_last() =~= s.take(i));
    } else {
        assert(s.take(i) =~= s);
    }
}

proof fn lemma_labels_distinct()
    ensures
        forall|a: ShardStatus, b: ShardStatus| a != b ==> #[trigger] status_label(a) != #[trigger] status_label(b),
{
    reveal_strlit("Active");
    reveal_strlit("Inactive");
    reveal_strlit("ReadOnly");
    reveal_strlit("Migrating");
    reveal_strlit("Spliting");
    assert forall|a: ShardStatus, b: ShardStatus| a != b implies #[trigger] status_label(a) != #[trigger] status_label(b) by {
        if status_label(a).len() == status_label(b).len() {
            assert(status_label(a)[0] != status_label(b)[0] || status_label(a)[1] != status_label(b)[1]);
        }
    }
}

/// Whether some entry of a list of named counts has the name.
pub open spec fn has_name(s: Seq<(String, usize)>, name: Seq<char>) -> bool {
    exists|t: int| 0 <= t < s.len() && s[t].0@ == name
}

proof fn lemma_lookup_count_append(s: Seq<(String, usize)>, e: (String, usize), name: Seq<char>)
    ensures
        !has_name(s, name) ==> lookup_count(s, name) == 0,
        lookup_count(s.push(e), name) == if has_name(s, name) {
            lookup_count(s, name)
        } else if e.0@ == name {
            e.1
        } else {
            0
        },
    decreases s.len(),
{
    let p = s.push(e);
    if s.len() > 0 {
        let d = s.drop_first();
        lemma_lookup_count_append(d, e, name);
        assert(p.drop_first() =~= d.push(e));
        assert(p[0] == s[0]);
        if s[0].0@ == name {
            assert(has_name(s, name)) by { assert(s[0].0@ == name); }
            assert(lookup_count(p, name) == s[0].1);
            assert(lookup_count(s, name) == s[0].1);
        } else {
            assert(lookup_count(p, name) == lookup_count(d.push(e), name));
            assert(lookup_count(s, name) == lookup_count(d, name));
            if has_name(d, name) {
                let t = choose|t: int| 0 <= t < d.len() && d[t].0@ == name;
                assert(s[t + 1].0@ == name);
                assert(has_name(s, name));
            }
            if has_name(s, name) {
                let t = choose|t: int| 0 <= t < s.len() && s[t].0@ == name;
                assert(d[t - 1].0@ == name);
                assert(has_name(d, name));
            }
        }
    } else {
        assert(p[0] == e);
        assert(p.drop_first() =~= Seq::<(String, usize)>::empty());
        assert(lookup_count(p.drop_first(), name) == 0);
        assert(!has_name(s, name));
        if e.0@ == name {
            assert(lookup_count(p, name) == e.1);
        } else {
            assert(lookup_count(p, name) == lookup_count(p.drop_first(), name));
        }
    }
}

proof fn lemma_lookup_push(s: Seq<(String, usize)>, e: (String, usize), k: int, statuses: Seq<ShardStatus>)
    requires
        0 <= k < 5,
        statuses == seq![ShardStatus::Active, ShardStatus::Inactive, ShardStatus::ReadOnly, ShardStatus::Migrating, ShardStatus::Spliting],
        e.0@ == status_label(statuses[k]),
        forall|t: int| 0 <= t < s.len() ==> (#[trigger] s[t]).1 > 0,
        forall|t: int| 0 <= t < s.len() ==> exists|u: int| 0 <= u < k && #[trigger] s[t].0@ == status_label(statuses[u]),
        forall|u: int| 0 <= u < 5 ==> lookup_count(s, status_label(#[trigger] statuses[u])) == if u < k { lookup_count(s, status_label(statuses[u])) } else { 0 },
    ensures
        forall|u: int| 0 <= u < 5 && u != k ==> lookup_count(s.push(e), status_label(#[trigger] statuses[u])) == lookup_count(s, status_label(statuses[u])),
        lookup_count(s.push(e), status_label(statuses[k])) == e.1,
{
    lemma_labels_distinct();
    assert forall|u: int| 0 <= u < 5 && u != k implies lookup_count(s.push(e), status_label(#[trigger] statuses[u])) == lookup_count(s, status_label(statuses[u])) by {
        lemma_lookup_count_append(s, e, status_label(statuses[u]));
        assert(statuses[u] != statuses[k]);
    }
    lemma_lookup_count_append(s, e, status_label(statuses[k]));
    if has_name(s, status_label(statuses[k])) {
        let t = choose|t: int| 0 <= t < s.len() && s[t].0@ == status_label(statuses[k]);
        let u = choose|u: int| 0 <= u < k && #[trigger] s[t].0@ == status_label(statuses[u]);
        assert(statuses[u] != statuses[k]);
    }
}

/// Totals over the shards of a node.
#[derive(Debug, Clone)]
pub struct ShardStats {
    pub total_shards: usize,
    pub total_size_bytes: u64,
    pub total_rows: u64,
    pub status_counts: Vec<(String, usize)>,
}

impl ShardStats {
    /// The mean size of a shard, rounded down; zero when there are none.
    pub fn average_shard_size(&self) -> (r: u64)
        ensures
            r == if self.total_shards == 0 { 0 } else { self.total_size_bytes / (self.total_shards as u64) },
    {
        if self.total_shards == 0 {
            return 0;
        }
        self.total_size_bytes / self.total_shards as u64
    }

    /// The number of shards with the named status; zero for a name that
    /// is not counted.
    pub fn shard_count_by_status(&self, status: &str) -> (r: usize)
        ensures
            r == lookup_count(self.status_counts@, status@),
    {
        let mut i: usize = 0;
        proof { assert(self.status_counts@.skip(0) =~= self.status_counts@); }
        while i < self.status_counts.len()
            invariant
                i <= self.status_counts@.len(),
                lookup_count(self.status_counts@.skip(i as int), status@) == lookup_count(self.status_counts@, status@),
            decreases self.status_counts@.len() - i,
        {
            proof {
                assert(self.status_counts@.skip(i as int)[0] == self.status_counts@[i as int]);
                assert(self.status_counts@.skip(i as int).drop_first() =~= self.status_counts@.skip(i + 1));
            }
            if crate::text::str_eq(self.status_counts[i].0.as_str(), status) {
                return self.status_counts[i].1;
            }
            i = i + 1;
        }
        proof {
            assert(self.status_counts@.skip(i as int) =~= Seq::<(String, usize)>::empty());
        }
        0
    }
}

/// The absolute value of an integer.
pub open spec fn abs(a: int) -> nat {
    if a < 0 { (-a) as nat } else { a as nat }
}

/// The magnitude of an `i64`, as an unsigned number.
fn magnitude(a: i64) -> (r: u64)
    ensures
        r == abs(a as int),
{
    if a >= 0 {
        a as u64
    } else if a == i64::MIN {
        9223372036854775808u64
    } else {
        (-a) as u64
    }
}

/// Maps timestamps to shards and shards to nodes.
pub struct ShardMapper {
    shard_duration_seconds: u64,
    replica_count: u32,
    virtual_nodes: u32,
}

/// Whether dividing a timestamp by a duration read as `i64` is defined:
/// the divisor is not zero and the quotient does not overflow.
pub open spec fn shard_division_defined(timestamp: i64, duration: u64) -> bool {
    (duration as i64) != 0 && !(timestamp == i64::MIN && (duration as i64) == -1)
}

/// The shard of a timestamp: the magnitude of the timestamp divided by the
/// duration (read as `i64`, the quotient truncated toward zero).
pub open spec fn shard_of(timestamp: i64, duration: u64) -> nat {
    abs(timestamp as int) / abs((duration as i64) as int)
}

impl ShardMapper {
    /// The span of one shard, in seconds.
    pub closed spec fn spec_duration(&self) -> u64 {
        self.shard_duration_seconds
    }

    /// The number of replicas of a shard.
    pub closed spec fn spec_replicas(&self) -> u32 {
        self.replica_count
    }

    /// The number of virtual nodes per node.
    pub closed spec fn spec_virtual_nodes(&self) -> u32 {
        self.virtual_nodes
    }

    /// A mapper with 150 virtual nodes per node.
    pub fn new(shard_duration_seconds: u64, replica_count: u32) -> (r: Self)
        ensures
            r.spec_duration() == shard_duration_seconds,
            r.spec_replicas() == replica_count,
            r.spec_virtual_nodes() == 150,
    {
        ShardMapper { shard_duration_seconds, replica_count, virtual_nodes: 150 }
    }

    /// The same mapper with another number of virtual nodes.
    pub fn with_virtual_nodes(self, vnodes: u32) -> (r: Self)
        ensures
            r.spec_duration() == self.spec_duration(),
            r.spec_replicas() == self.spec_replicas(),
            r.spec_virtual_nodes() == vnodes,
    {
        ShardMapper { virtual_nodes: vnodes, ..self }
    }

    /// The shard that holds a timestamp.
    pub fn map_shard(&self, timestamp: i64) -> (r: u64)
        requires
            shard_division_defined(timestamp, self.spec_duration()),
        ensures
            r == shard_of(timestamp, self.spec_duration()),
    {
        let d = self.shard_duration_seconds as i64;
        let q = magnitude(timestamp) / magnitude(d);
        q
    }

    /// The span of one shard, in seconds.
    pub fn get_shard_duration(&self) -> (r: u64)
        ensures
            r == self.spec_duration(),
    {
        self.shard_duration_seconds
    }

    /// The number of replicas of a shard.
    pub fn get_replica_count(&self) -> (r: u32)
        ensures
            r == self.spec_replicas(),
    {
        self.replica_count
    }

    /// The number of virtual nodes per node.
    pub fn get_virtual_nodes(&self) -> (r: u32)
        ensures
            r == self.spec_virtual_nodes(),
    {
        self.virtual_nodes
    }

    /// Every shard is taken to contain every timestamp.
    pub fn contains(&self, shard_id: u64, timestamp: i64) -> (r: bool)
        ensures
            r,
    {
        true
    }

    /// The directory of a shard under a data directory.
    pub fn get_shard_path(&self, data_dir: &str, database: &str, rp: &str, shard_id: u64) -> (r: String)
        ensures
            r@ == path_join(path_join(path_join(data_dir@, database@), rp@), dec_nat(shard_id as nat)),
    {
        let a = join_path(data_dir, database);
        let b = join_path(a.as_str(), rp);
        let id = u64_to_string(shard_id);
        join_path(b.as_str(), id.as_str())
    }

    /// The node that holds a shard: its id spread over the virtual nodes
    /// of all nodes, which lands on node `shard_id % nodes.len()`; `None`
    /// when there are no nodes.
    pub fn map_shard_to_node(&self, shard_id: u64, nodes: &[String]) -> (r: Option<String>)
        requires
            nodes@.len() > 0 ==> self.spec_virtual_nodes() > 0,
            nodes@.len() > 0 ==> shard_id * self.spec_virtual_nodes() <= u64::MAX,
            nodes@.len() > 0 ==> nodes@.len() * self.spec_virtual_nodes() <= u64::MAX,
        ensures
            nodes@.len() == 0 ==> r is None,
            nodes@.len() > 0 ==> (r matches Some(n) && n@ == nodes@[(shard_id % (nodes@.len() as u64)) as int]@),
    {
        if nodes.len() == 0 {
            return None;
        }
        let v = self.virtual_nodes as u64;
        let n = nodes.len() as u64;
        proof {
            lemma_spread(shard_id as int, n as int, v as int);
            assert(n * v > 0) by (nonlinear_arith) requires n > 0, v > 0;
        }
        let vnode = (shard_id * v) % (n * v);
        let node_idx = (vnode / v) as usize;
        Some(nodes[node_idx].clone())
    }

    /// The key of the shard of a timestamp: database, retention policy and
    /// shard number, separated by slashes.
    pub fn calculate_shard_key(&self, database: &str, rp: &str, timestamp: i64) -> (r: String)
        requires
            shard_division_defined(timestamp, self.spec_duration()),
        ensures
            r@ == database@ + "/"@ + rp@ + "/"@ + dec_nat(shard_of(timestamp, self.spec_duration())),
    {
        let mut s = String::new();
        push_str(&mut s, database);
        push_str(&mut s, "/");
        push_str(&mut s, rp);
        push_str(&mut s, "/");
        append_u64(&mut s, self.map_shard(timestamp));
        proof {
            assert(Seq::<char>::empty() + database@ =~= database@);
        }
        s
    }
}

proof fn lemma_spread(a: int, n: int, v: int)
    requires
        a >= 0,
        n > 0,
        v > 0,
    ensures
        ((a * v) % (n * v)) / v == a % n,
{
    let q = a / n;
    let r = a % n;
    vstd::arithmetic::div_mod::lemma_fundamental_div_mod(a, n);
    assert(a * v == q * (n * v) + r * v) by (nonlinear_arith)
        requires a == n * q + r;
    assert(0 <= r * v < n * v) by (nonlinear_arith)
        requires 0 <= r < n, v > 0;
    vstd::arithmetic::div_mod::lemma_fundamental_div_mod_converse(a * v, n * v, q, r * v);
    vstd::arithmetic::div_mod::lemma_fundamental_div_mod_converse(r * v, v, r, 0);
}

/// A non-negative timestamp lies in the time range of the shard that the
/// mapper assigns it to, when that shard has the mapper's duration: shard
/// `k` of duration `d` covers `[k * d, (k + 1) * d)`.
pub proof fn law_mapped_shard_covers_timestamp(v: ShardInfoView, timestamp: i64)
    requires
        timestamp >= 0,
        0 < v.shard_duration_seconds <= i64::MAX,
        v.id == shard_of(timestamp, v.shard_duration_seconds),
        time_range_fits(v),
    ensures
        covers(v, timestamp),
{
    let d = v.shard_duration_seconds as int;
    let t = timestamp as int;
    assert(abs((v.shard_duration_seconds as i64) as int) == d);
    assert(v.id == t / d);
    vstd::arithmetic::div_mod::lemma_fundamental_div_mod(t, d);
    assert(0 <= t % d < d) by {
        vstd::arithmetic::div_mod::lemma_mod_bound(t, d);
    }
    assert((t / d) * d <= t) by (nonlinear_arith)
        requires t == d * (t / d) + t % d, 0 <= t % d;
    assert(t < (t / d) * d + d) by (nonlinear_arith)
        requires t == d * (t / d) + t % d, t % d < d;
    assert(v.id <= t) by (nonlinear_arith)
        requires v.id == t / d, d > 0, t >= 0;
    assert((v.id as i64) as int == v.id as int);
    assert((v.shard_duration_seconds as i64) as int == d);
}

/// A registered shard is found under its id until it is removed, and only
/// its id's entry changes.
pub proof fn law_registered_shard_is_found(shards: Map<u64, ShardInfoView>, v: ShardInfoView, other: u64)
    requires
        other != v.id,
    ensures
        shards.insert(v.id, v).contains_key(v.id),
        shards.insert(v.id, v)[v.id] == v,
        shards.insert(v.id, v).contains_key(other) == shards.contains_key(other),
        !shards.insert(v.id, v).remove(v.id).contains_key(v.id),
{
}

} // verus!
