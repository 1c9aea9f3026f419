//! The logical schema: databases, their retention policies, and the
//! measurements with their tags and typed fields.

use vstd::prelude::*;
use crate::error::Error;
use crate::clock::utc_now_seconds;
use crate::keyed::{keyed, keys_unique, lemma_keyed_facts, lemma_keyed_update, lemma_keyed_push, lemma_keyed_absent, lemma_keyed_remove};
use crate::text::{push_str, str_eq};

verus! {

/// The type of a field's values.
#[derive(Debug, Clone, Copy, PartialEq, Eq, Structural)]
pub enum FieldType {
    Integer,
    Float,
    String,
    Boolean,
}

/// The name of a field type.
pub open spec fn field_type_name(t: FieldType) -> Seq<char> {
    match t {
        FieldType::Integer => "integer"@,
        FieldType::Float => "float"@,
        FieldType::String => "string"@,
        FieldType::Boolean => "boolean"@,
    }
}

impl FieldType {
    /// The name of the type.
    pub fn as_str(&self) -> (r: &'static str)
        ensures
            r@ == field_type_name(*self),
    {
        match self {
            FieldType::Integer => "integer",
            FieldType::Float => "float",
            FieldType::String => "string",
            FieldType::Boolean => "boolean",
        }
    }
}

/// A tag of a measurement: a key and its value.
#[derive(Debug, Clone)]
pub struct Tag {
    pub key: String,
    pub value: String,
}

/// A field of a measurement: a name and its type.
#[derive(Debug, Clone)]
pub struct Field {
    pub name: String,
    pub ftype: FieldType,
}

/// A measurement: its name, tags and fields.
#[derive(Debug, Clone)]
pub struct Measurement {
    pub name: String,
    pub tags: Vec<Tag>,
    pub fields: Vec<Field>,
    pub schema_version: u64,
}

/// The index of the first element of `s` with the given name, if any.
pub open spec fn first_named<T>(s: Seq<T>, name_of: spec_fn(T) -> Seq<char>, name: Seq<char>) -> Option<int> {
    if exists|i: int| 0 <= i < s.len() && name_of(s[i]) == name {
        Some(choose|i: int| 0 <= i < s.len() && name_of(s[i]) == name
            && forall|j: int| 0 <= j < i ==> name_of(s[j]) != name)
    } else {
        None
    }
}

proof fn lemma_first_named<T>(s: Seq<T>, name_of: spec_fn(T) -> Seq<char>, name: Seq<char>, i: int)
    requires
        0 <= i < s.len(),
        name_of(s[i]) == name,
        forall|j: int| 0 <= j < i ==> name_of(s[j]) != name,
    ensures
        first_named(s, name_of, name) == Some(i),
{
    let k = choose|k: int| 0 <= k < s.len() && name_of(s[k]) == name && forall|j: int| 0 <= j < k ==> name_of(s[j]) != name;
    assert(0 <= i < s.len() && name_of(s[i]) == name && forall|j: int| 0 <= j < i ==> name_of(s[j]) != name);
    if k < i {
    } else if k > i {
    }
}

impl Measurement {
    /// A measurement with no tags or fields, at schema version zero.
    pub fn new(name: String) -> (r: Self)
        ensures
            r.name == name,
            r.tags@.len() == 0,
            r.fields@.len() == 0,
            r.schema_version == 0,
    {
        Measurement { name, tags: Vec::new(), fields: Vec::new(), schema_version: 0 }
    }

    /// Appends a tag.
    pub fn add_tag(&mut self, key: String, value: String)
        ensures
            final(self).tags@ == old(self).tags@.push(Tag { key, value }),
            final(self).fields == old(self).fields,
            final(self).name == old(self).name,
            final(self).schema_version == old(self).schema_version,
    {
        self.tags.push(Tag { key, value });
    }

    /// Appends a field.
    pub fn add_field(&mut self, name: String, ftype: FieldType)
        ensures
            final(self).fields@ == old(self).fields@.push(Field { name, ftype }),
            final(self).tags == old(self).tags,
            final(self).name == old(self).name,
            final(self).schema_version == old(self).schema_version,
    {
        self.fields.push(Field { name, ftype });
    }

    /// The first field with the given name.
    pub fn get_field(&self, name: &str) -> (r: Option<&Field>)
        ensures
            match first_named(self.fields@, |f: Field| f.name@, name@) {
                Some(i) => r == Some(&self.fields@[i]),
                None => r is None,
            },
    {
        let mut i: usize = 0;
        while i < self.fields.len()
            invariant
                i <= self.fields@.len(),
                forall|j: int| 0 <= j < i ==> (|f: Field| f.name@)(self.fields@[j]) != name@,
            decreases self.fields@.len() - i,
        {
            if str_eq(self.fields[i].name.as_str(), name) {
                proof { lemma_first_named(self.fields@, |f: Field| f.name@, name@, i as int); }
                return Some(&self.fields[i]);
            }
            i = i + 1;
        }
        None
    }

    /// The first tag with the given key.
    pub fn get_tag(&self, key: &str) -> (r: Option<&Tag>)
        ensures
            match first_named(self.tags@, |t: Tag| t.key@, key@) {
                Some(i) => r == Some(&self.tags@[i]),
                None => r is None,
            },
    {
        let mut i: usize = 0;
        while i < self.tags.len()
            invariant
                i <= self.tags@.len(),
                forall|j: int| 0 <= j < i ==> (|t: Tag| t.key@)(self.tags@[j]) != key@,
            decreases self.tags@.len() - i,
        {
            if str_eq(self.tags[i].key.as_str(), key) {
                proof { lemma_first_named(self.tags@, |t: Tag| t.key@, key@, i as int); }
                return Some(&self.tags[i]);
            }
            i = i + 1;
        }
        None
    }
}

/// How long data is kept, and how it is sharded and replicated.
#[derive(Debug, Clone)]
pub struct RetentionPolicy {
    pub name: String,
    pub duration_seconds: u64,
    pub replica_count: u32,
    pub shard_duration_seconds: u64,
}

/// The abstract value of a retention policy.
pub struct RetentionPolicyView {
    pub name: Seq<char>,
    pub duration_seconds: u64,
    pub replica_count: u32,
    pub shard_duration_seconds: u64,
}

impl View for RetentionPolicy {
    type V = RetentionPolicyView;

    open spec fn view(&self) -> RetentionPolicyView {
        RetentionPolicyView {
            name: self.name@,
            duration_seconds: self.duration_seconds,
            replica_count: self.replica_count,
            shard_duration_seconds: self.shard_duration_seconds,
        }
    }
}

/// Whether data written at `timestamp` has outlived a retention of
/// `duration` seconds at time `now`: the difference, wrapped to `i64` and
/// read as unsigned, exceeds the duration.
pub open spec fn expired_at(duration: u64, now: i64, timestamp: i64) -> bool {
    (now.wrapping_sub(timestamp) as u64) > duration
}

impl RetentionPolicy {
    /// A policy with one replica and week-long shards.
    pub fn new(name: String, duration_seconds: u64) -> (r: Self)
        ensures
            r.name == name,
            r.duration_seconds == duration_seconds,
            r.replica_count == 1,
            r.shard_duration_seconds == 604800,
    {
        RetentionPolicy { name, duration_seconds, replica_count: 1, shard_duration_seconds: 604800 }
    }

    /// A copy with the same abstract value.
    pub fn duplicate(&self) -> (r: Self)
        ensures
            r@ == self@,
    {
        RetentionPolicy {
            name: self.name.clone(),
            duration_seconds: self.duration_seconds,
            replica_count: self.replica_count,
            shard_duration_seconds: self.shard_duration_seconds,
        }
    }

    /// The same policy with another replica count.
    pub fn with_replica_count(self, replica_count: u32) -> (r: Self)
        ensures
            r == (RetentionPolicy { replica_count, ..self }),
    {
        RetentionPolicy { replica_count, ..self }
    }

    /// The same policy with another shard duration.
    pub fn with_shard_duration(self, shard_duration_seconds: u64) -> (r: Self)
        ensures
            r == (RetentionPolicy { shard_duration_seconds, ..self }),
    {
        RetentionPolicy { shard_duration_seconds, ..self }
    }

    /// Whether data written at `timestamp` has expired at time `now`.
    pub fn is_expired_at(&self, now: i64, timestamp: i64) -> (r: bool)
        ensures
            r == expired_at(self.duration_seconds, now, timestamp),
    {
        (now.wrapping_sub(timestamp) as u64) > self.duration_seconds
    }

    /// Whether data written at `timestamp` has expired now, by the UTC
    /// clock.
    pub fn is_expired(&self, timestamp: i64) -> (r: bool)
        ensures
            exists|now: i64| r == expired_at(self.duration_seconds, now, timestamp),
    {
        let now = utc_now_seconds();
        self.is_expired_at(now, timestamp)
    }
}

/// The name under which a policy is kept.
pub open spec fn rp_key() -> spec_fn(RetentionPolicy) -> Seq<char> {
    |p: RetentionPolicy| p.name@
}

/// The value of a kept policy.
pub open spec fn rp_val() -> spec_fn(RetentionPolicy) -> RetentionPolicyView {
    |p: RetentionPolicy| p@
}

/// A database: its retention policies by name and its default policy.
#[derive(Debug, Clone)]
pub struct Database {
    pub name: String,
    pub retention_policies: Vec<RetentionPolicy>,
    pub default_rp: Option<String>,
}

/// The abstract value of a database.
pub struct DatabaseView {
    pub name: Seq<char>,
    pub retention_policies: Map<Seq<char>, RetentionPolicyView>,
    pub default_rp: Option<Seq<char>>,
}

impl View for Database {
    type V = DatabaseView;

    open spec fn view(&self) -> DatabaseView {
        DatabaseView {
            name: self.name@,
            retention_policies: keyed(self.retention_policies@, rp_key(), rp_val()),
            default_rp: match self.default_rp {
                Some(n) => Some(n@),
                None => None,
            },
        }
    }
}

impl Database {
    /// Whether no two policies share a name.
    pub open spec fn wf(&self) -> bool {
        keys_unique(self.retention_policies@, rp_key())
    }

    /// A database with no policies and no default.
    pub fn new(name: String) -> (r: Self)
        ensures
            r.name == name,
            r.wf(),
            r.retention_policies@.len() == 0,
            r@.retention_policies == Map::<Seq<char>, RetentionPolicyView>::empty(),
            r.default_rp is None,
    {
        let r = Database { name, retention_policies: Vec::new(), default_rp: None };
        assert(r@.retention_policies =~= Map::<Seq<char>, RetentionPolicyView>::empty());
        r
    }

    fn find_rp(&self, name: &str) -> (r: Option<usize>)
        requires
            self.wf(),
        ensures
            match r {
                Some(i) => i < self.retention_policies@.len() && self.retention_policies@[i as int].name@ == name@
                    && self@.retention_policies.contains_key(name@)
                    && self@.retention_policies[name@] == self.retention_policies@[i as int]@,
                None => !self@.retention_policies.contains_key(name@),
            },
    {
        let mut i: usize = 0;
        while i < self.retention_policies.len()
            invariant
                i <= self.retention_policies@.len(),
                self.wf(),
                forall|j: int| 0 <= j < i ==> self.retention_policies@[j].name@ != name@,
            decreases self.retention_policies@.len() - i,
        {
            if str_eq(self.retention_policies[i].name.as_str(), name) {
                proof {
                    lemma_keyed_facts(self.retention_policies@, rp_key(), rp_val());
                    assert(rp_key()(self.retention_policies@[i as int]) == name@);
                }
                return Some(i);
            }
            i = i + 1;
        }
        proof { lemma_keyed_absent(self.retention_policies@, rp_key(), rp_val(), name@); }
        None
    }

    /// Adds a policy, replacing one of the same name; the first policy
    /// added becomes the default.
    pub fn add_rp(&mut self, rp: RetentionPolicy)
        requires
            old(self).wf(),
        ensures
            final(self).wf(),
            final(self).name == old(self).name,
            final(self)@.retention_policies == old(self)@.retention_policies.insert(rp.name@, rp@),
            final(self)@.default_rp == match old(self)@.default_rp {
                Some(d) => Some(d),
                None => Some(rp.name@),
            },
    {
        if self.default_rp.is_none() {
            self.default_rp = Some(rp.name.clone());
        }
        match self.find_rp(rp.name.as_str()) {
            Some(i) => {
                proof { lemma_keyed_update(self.retention_policies@, rp_key(), rp_val(), i as int, rp); }
                self.retention_policies.set(i, rp);
            },
            None => {
                proof { lemma_keyed_push(self.retention_policies@, rp_key(), rp_val(), rp); }
                self.retention_policies.push(rp);
            },
        }
    }

    /// The policy with the given name.
    pub fn get_rp(&self, name: &str) -> (r: Option<&RetentionPolicy>)
        requires
            self.wf(),
        ensures
            match r {
                Some(p) => self@.retention_policies.contains_key(name@) && self@.retention_policies[name@] == p@,
                None => !self@.retention_policies.contains_key(name@),
            },
    {
        match self.find_rp(name) {
            Some(i) => Some(&self.retention_policies[i]),
            None => None,
        }
    }

    /// The default policy, when one is set and kept.
    pub fn get_default_rp(&self) -> (r: Option<&RetentionPolicy>)
        requires
            self.wf(),
        ensures
            match self@.default_rp {
                Some(d) => match r {
                    Some(p) => self@.retention_policies.contains_key(d) && self@.retention_policies[d] == p@,
                    None => !self@.retention_policies.contains_key(d),
                },
                None => r is None,
            },
    {
        match &self.default_rp {
            Some(name) => self.get_rp(name.as_str()),
            None => None,
        }
    }
}

/// The name under which a database is kept.
pub open spec fn db_key() -> spec_fn((String, Database)) -> Seq<char> {
    |e: (String, Database)| e.0@
}

/// The value of a kept database.
pub open spec fn db_val() -> spec_fn((String, Database)) -> DatabaseView {
    |e: (String, Database)| e.1@
}

/// The "{prefix}{name}{suffix}" message of the schema's errors.
pub open spec fn schema_message(prefix: Seq<char>, name: Seq<char>, suffix: Seq<char>) -> Seq<char> {
    prefix + name + suffix
}

pub(crate) fn message(prefix: &str, name: &str, suffix: &str) -> (r: String)
    ensures
        r@ == schema_message(prefix@, name@, suffix@),
{
    let mut s = String::new();
    push_str(&mut s, prefix);
    push_str(&mut s, name);
    push_str(&mut s, suffix);
    proof { assert(Seq::<char>::empty() + prefix@ =~= prefix@); }
    s
}

/// The databases of the engine, by name.
pub struct Schema {
    pub databases: Vec<(String, Database)>,
}

impl Schema {
    /// Whether no two databases share a name and each database is
    /// well-formed.
    pub open spec fn wf(&self) -> bool {
        &&& keys_unique(self.databases@, db_key())
        &&& forall|i: int| 0 <= i < self.databases@.len() ==> (#[trigger] self.databases@[i]).1.wf()
    }

    /// The databases by name.
    pub open spec fn dbs(&self) -> Map<Seq<char>, DatabaseView> {
        keyed(self.databases@, db_key(), db_val())
    }

    /// An empty schema.
    pub fn new() -> (r: Self)
        ensures
            r.wf(),
            r.databases@.len() == 0,
            r.dbs() == Map::<Seq<char>, DatabaseView>::empty(),
    {
        let r = Schema { databases: Vec::new() };
        assert(r.dbs() =~= Map::<Seq<char>, DatabaseView>::empty());
        r
    }

    fn find_db(&self, name: &str) -> (r: Option<usize>)
        requires
            keys_unique(self.databases@, db_key()),
        ensures
            match r {
                Some(i) => i < self.databases@.len() && self.databases@[i as int].0@ == name@
                    && self.dbs().contains_key(name@)
                    && self.dbs()[name@] == self.databases@[i as int].1@,
                None => !self.dbs().contains_key(name@),
            },
    {
        let mut i: usize = 0;
        while i < self.databases.len()
            invariant
                i <= self.databases@.len(),
                keys_unique(self.databases@, db_key()),
                forall|j: int| 0 <= j < i ==> self.databases@[j].0@ != name@,
            decreases self.databases@.len() - i,
        {
            if str_eq(self.databases[i].0.as_str(), name) {
                proof {
                    lemma_keyed_facts(self.databases@, db_key(), db_val());
                    assert(db_key()(self.databases@[i as int]) == name@);
                }
                return Some(i);
            }
            i = i + 1;
        }
        proof { lemma_keyed_absent(self.databases@, db_key(), db_val(), name@); }
        None
    }

    /// Creates an empty database and hands it out for changes; an error
    /// when a database of that name exists.
    /// Drops a database with its policies; `database .. not found` when
    /// there is none of that name.
    pub fn drop_database(&mut self, name: &str) -> (r: Result<(), Error>)
        requires
            old(self).wf(),
        ensures
            old(self).dbs().contains_key(name@) ==> r is Ok && final(self).dbs() == old(self).dbs().remove(name@),
            !old(self).dbs().contains_key(name@) ==> (r matches Err(Error::Schema(m))
                && m@ == schema_message("database "@, name@, " not found"@) && *final(self) == *old(self)),
            final(self).wf(),
    {
        match self.find_db(name) {
            None => Err(Error::Schema(message("database ", name, " not found"))),
            Some(i) => {
                let ghost before = self.databases@;
                proof { lemma_keyed_remove(before, db_key(), db_val(), i as int); }
                self.databases.remove(i);
                proof {
                    assert(self.databases@ == before.remove(i as int));
                    assert forall|j: int| 0 <= j < self.databases@.len() implies (#[trigger] self.databases@[j]).1.wf() by {
                        let j2 = if j < i { j } else { j + 1 };
                        assert(self.databases@[j] == before[j2]);
                    }
                }
                Ok(())
            },
        }
    }

    pub fn create_database(&mut self, name: String) -> (r: Result<&mut Database, Error>)
        requires
            old(self).wf(),
        ensures
            old(self).dbs().contains_key(name@) ==> (r matches Err(Error::Schema(msg))
                && msg@ == schema_message("database "@, name@, " already exists"@)
                && *final(self) == *old(self)),
            !old(self).dbs().contains_key(name@) ==> (r matches Ok(d)
                && (*d).name@ == name@ && (*d).retention_policies@.len() == 0 && (*d).default_rp is None
                && final(self).dbs() == old(self).dbs().insert(name@, (*final(d))@)
                && final(self).databases@.len() == old(self).databases@.len() + 1
                && ((*final(d)).wf() ==> final(self).wf())),
    {
        if self.find_db(name.as_str()).is_some() {
            return Err(Error::Schema(message("database ", name.as_str(), " already exists")));
        }
        let n = self.databases.len();
        let key = name.clone();
        let db = Database::new(name);
        proof { lemma_keyed_push(self.databases@, db_key(), db_val(), (key, db)); }
        self.databases.push((key, db));
        let ghost pushed = self.databases@;
        proof {
            lemma_keyed_facts(pushed, db_key(), db_val());
        }
        let r = &mut self.databases[n].1;
        proof {
            assert(pushed[n as int].1 == db);
            lemma_keyed_update(pushed, db_key(), db_val(), n as int, (pushed[n as int].0, *final(r)));
            assert(old(self).dbs().insert(name@, db@).insert(name@, (*final(r))@) =~= old(self).dbs().insert(name@, (*final(r))@));
        }
        Ok(r)
    }

    /// The database with the given name.
    pub fn get_database(&self, name: &str) -> (r: Option<&Database>)
        requires
            keys_unique(self.databases@, db_key()),
        ensures
            match r {
                Some(d) => self.dbs().contains_key(name@) && self.dbs()[name@] == d@ && (self.wf() ==> d.wf()),
                None => !self.dbs().contains_key(name@),
            },
    {
        match self.find_db(name) {
            Some(i) => Some(&self.databases[i].1),
            None => None,
        }
    }

    /// The database with the given name, for changes.
    pub fn get_database_mut(&mut self, name: &str) -> (r: Option<&mut Database>)
        requires
            keys_unique(old(self).databases@, db_key()),
        ensures
            old(self).dbs().contains_key(name@) ==> (r matches Some(d)
                && (*d)@ == old(self).dbs()[name@]
                && final(self).dbs() == old(self).dbs().insert(name@, (*final(d))@)
                && keys_unique(final(self).databases@, db_key())),
            !old(self).dbs().contains_key(name@) ==> (r is None && *final(self) == *old(self)),
    {
        match self.find_db(name) {
            Some(i) => {
                let ghost before = self.databases@;
                let r = &mut self.databases[i].1;
                proof {
                    lemma_keyed_update(before, db_key(), db_val(), i as int, (before[i as int].0, *final(r)));
                }
                Some(r)
            },
            None => None,
        }
    }

    /// Checks that the database and its retention policy exist; the
    /// measurement itself is not kept.
    pub fn create_measurement(&mut self, db_name: &str, rp_name: &str, measurement: Measurement) -> (r: Result<(), Error>)
        requires
            old(self).wf(),
        ensures
            *final(self) == *old(self),
            !old(self).dbs().contains_key(db_name@) ==> (r matches Err(Error::Schema(msg))
                && msg@ == schema_message("database "@, db_name@, " not found"@)),
            old(self).dbs().contains_key(db_name@) && !old(self).dbs()[db_name@].retention_policies.contains_key(rp_name@)
                ==> (r matches Err(Error::Schema(msg)) && msg@ == schema_message("retention policy "@, rp_name@, " not found"@)),
            old(self).dbs().contains_key(db_name@) && old(self).dbs()[db_name@].retention_policies.contains_key(rp_name@)
                ==> r is Ok,
    {
        let i = match self.find_db(db_name) {
            Some(i) => i,
            None => return Err(Error::Schema(message("database ", db_name, " not found"))),
        };
        let db = &self.databases[i].1;
        proof { assert(db.wf()); }
        match db.get_rp(rp_name) {
            Some(_) => Ok(()),
            None => Err(Error::Schema(message("retention policy ", rp_name, " not found"))),
        }
    }

    /// The names of the databases, each once.
    pub fn list_databases(&self) -> (r: Vec<&str>)
        requires
            keys_unique(self.databases@, db_key()),
        ensures
            r@.len() == self.databases@.len(),
            forall|i: int| 0 <= i < r@.len() ==> (#[trigger] r@[i])@ == self.databases@[i].0@,
            r@.map_values(|s: &str| s@).to_set() == self.dbs().dom(),
            r@.map_values(|s: &str| s@).no_duplicates(),
    {
        let mut r: Vec<&str> = Vec::new();
        let mut i: usize = 0;
        while i < self.databases.len()
            invariant
                i <= self.databases@.len(),
                r@.len() == i,
                forall|j: int| 0 <= j < i ==> (#[trigger] r@[j])@ == self.databases@[j].0@,
            decreases self.databases@.len() - i,
        {
            r.push(self.databases[i].0.as_str());
            i = i + 1;
        }
        proof {
            lemma_keyed_facts(self.databases@, db_key(), db_val());
            let names = r@.map_values(|s: &str| s@);
            assert forall|k: Seq<char>| names.to_set().contains(k) <==> self.dbs().dom().contains(k) by {
                if names.to_set().contains(k) {
                    let j = choose|j: int| 0 <= j < names.len() && names[j] == k;
                    assert(db_key()(self.databases@[j]) == k);
                }
                if self.dbs().contains_key(k) {
                    let j = choose|j: int| 0 <= j < self.databases@.len() && db_key()(self.databases@[j]) == k;
                    assert(names[j] == k);
                }
            }
            assert(names.to_set() =~= self.dbs().dom());
            assert forall|a: int, b: int| 0 <= a < b < names.len() implies names[a] != names[b] by {
                assert(db_key()(self.databases@[a]) != db_key()(self.databases@[b]));
            }
        }
        r
    }

    /// Adds a retention policy to a database; an error when there is no
    /// such database.
    pub fn create_retention_policy(&mut self, db_name: &str, rp: RetentionPolicy) -> (r: Result<(), Error>)
        requires
            old(self).wf(),
        ensures
            final(self).wf(),
            !old(self).dbs().contains_key(db_name@) ==> (r matches Err(Error::Schema(msg))
                && msg@ == schema_message("database "@, db_name@, " not found"@)
                && *final(self) == *old(self)),
            old(self).dbs().contains_key(db_name@) ==> (r is Ok
                && final(self).dbs() == old(self).dbs().insert(db_name@, DatabaseView {
                    retention_policies: old(self).dbs()[db_name@].retention_policies.insert(rp.name@, rp@),
                    default_rp: match old(self).dbs()[db_name@].default_rp {
                        Some(d) => Some(d),
                        None => Some(rp.name@),
                    },
                    ..old(self).dbs()[db_name@]
                })),
    {
        let i = match self.find_db(db_name) {
            Some(i) => i,
            None => return Err(Error::Schema(message("database ", db_name, " not found"))),
        };
        let ghost before = self.databases@;
        proof { assert(before[i as int].1.wf()); }
        let (key, mut db) = self.databases.remove(i);
        db.add_rp(rp);
        self.databases.insert(i, (key, db));
        proof {
            let entry = self.databases@[i as int];
            assert(self.databases@ == before.update(i as int, entry));
            lemma_keyed_update(before, db_key(), db_val(), i as int, entry);
            assert forall|j: int| 0 <= j < self.databases@.len() implies (#[trigger] self.databases@[j]).1.wf() by {
                if j != i { assert(self.databases@[j] == before[j]); }
            }
        }
        Ok(())
    }
}

impl Default for Schema {
    fn default() -> (r: Self)
        ensures
            r.wf(),
            r.databases@.len() == 0,
    {
        Self::new()
    }
}

/// Creating a policy in a database and reading it back gives the policy;
/// a database's default policy is the first one ever added to it.
pub proof fn law_policy_read_back(db: DatabaseView, rp: RetentionPolicyView)
    ensures
        ({
            let after = DatabaseView {
                retention_policies: db.retention_policies.insert(rp.name, rp),
                default_rp: match db.default_rp { Some(d) => Some(d), None => Some(rp.name) },
                ..db
            };
            &&& after.retention_policies.contains_key(rp.name)
            &&& after.retention_policies[rp.name] == rp
            &&& db.default_rp is None ==> after.default_rp == Some(rp.name)
            &&& db.default_rp is Some ==> after.default_rp == db.default_rp
        }),
{
}

} // verus!
