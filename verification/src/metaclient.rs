//! The meta service: which nodes there are, which databases and policies
//! exist, and which node owns each shard. `MetaClientStub` keeps it all in
//! memory for a single node.

use vstd::prelude::*;
use vstd::string::*;
use crate::error::Error;
use crate::keyed::{keyed, keys_unique, lemma_keyed_absent, lemma_keyed_facts, lemma_keyed_push, lemma_keyed_update};
use crate::line_protocol::strings;
use crate::schema::{RetentionPolicy, RetentionPolicyView};
use crate::text::str_eq;

verus! {

/// A node of the cluster: its id and address, whether it leads, and its term.
#[derive(Debug, Clone)]
pub struct NodeInfo {
    pub id: u64,
    pub addr: String,
    pub is_leader: bool,
    pub term: u64,
}

/// The abstract value of a node.
pub struct NodeInfoView {
    pub id: u64,
    pub addr: Seq<char>,
    pub is_leader: bool,
    pub term: u64,
}

impl View for NodeInfo {
    type V = NodeInfoView;

    open spec fn view(&self) -> NodeInfoView {
        NodeInfoView { id: self.id, addr: self.addr@, is_leader: self.is_leader, term: self.term }
    }
}

impl NodeInfo {
    /// A node that does not lead, at term 0.
    pub fn new(id: u64, addr: String) -> (r: Self)
        ensures
            r.id == id,
            r.addr == addr,
            !r.is_leader,
            r.term == 0,
    {
        NodeInfo { id, addr, is_leader: false, term: 0 }
    }

    /// The node, leading or not.
    pub fn with_leader(self, is_leader: bool) -> (r: Self)
        ensures
            r == (NodeInfo { is_leader, ..self }),
    {
        NodeInfo { is_leader, ..self }
    }

    /// The node at a term.
    pub fn with_term(self, term: u64) -> (r: Self)
        ensures
            r == (NodeInfo { term, ..self }),
    {
        NodeInfo { term, ..self }
    }

    /// A copy with the same abstract value.
    pub fn duplicate(&self) -> (r: Self)
        ensures
            r@ == self@,
    {
        NodeInfo { id: self.id, addr: self.addr.clone(), is_leader: self.is_leader, term: self.term }
    }
}

/// Which node holds a shard of a database and policy, over a time range.
#[derive(Debug, Clone)]
pub struct ShardMapping {
    pub shard_id: u64,
    pub node_id: u64,
    pub database: String,
    pub retention_policy: String,
    pub start_time: i64,
    pub end_time: i64,
}

/// The abstract value of a shard mapping.
pub struct ShardMappingView {
    pub shard_id: u64,
    pub node_id: u64,
    pub database: Seq<char>,
    pub retention_policy: Seq<char>,
    pub start_time: i64,
    pub end_time: i64,
}

impl View for ShardMapping {
    type V = ShardMappingView;

    open spec fn view(&self) -> ShardMappingView {
        ShardMappingView {
            shard_id: self.shard_id,
            node_id: self.node_id,
            database: self.database@,
            retention_policy: self.retention_policy@,
            start_time: self.start_time,
            end_time: self.end_time,
        }
    }
}

impl ShardMapping {
    /// A mapping of a shard to a node.
    pub fn new(shard_id: u64, node_id: u64, database: &str, rp: &str, start_time: i64, end_time: i64) -> (r: Self)
        ensures
            r@ == (ShardMappingView {
                shard_id,
                node_id,
                database: database@,
                retention_policy: rp@,
                start_time,
                end_time,
            }),
    {
        ShardMapping {
            shard_id,
            node_id,
            database: database.to_owned(),
            retention_policy: rp.to_owned(),
            start_time,
            end_time,
        }
    }

    /// A copy with the same abstract value.
    pub fn duplicate(&self) -> (r: Self)
        ensures
            r@ == self@,
    {
        ShardMapping {
            shard_id: self.shard_id,
            node_id: self.node_id,
            database: self.database.clone(),
            retention_policy: self.retention_policy.clone(),
            start_time: self.start_time,
            end_time: self.end_time,
        }
    }
}

/// A copy of a shard of a group, on the nodes that hold it.
#[derive(Debug, Clone)]
pub struct ReplicaShardInfo {
    pub id: u64,
    pub group_id: u64,
    pub node_ids: Vec<u64>,
    pub owns: bool,
}

/// The abstract value of a replicated shard.
pub struct ReplicaShardInfoView {
    pub id: u64,
    pub group_id: u64,
    pub node_ids: Seq<u64>,
    pub owns: bool,
}

impl View for ReplicaShardInfo {
    type V = ReplicaShardInfoView;

    open spec fn view(&self) -> ReplicaShardInfoView {
        ReplicaShardInfoView { id: self.id, group_id: self.group_id, node_ids: self.node_ids@, owns: self.owns }
    }
}

impl ReplicaShardInfo {
    /// A copy with the same abstract value.
    pub fn duplicate(&self) -> (r: Self)
        ensures
            r@ == self@,
    {
        let mut node_ids: Vec<u64> = Vec::new();
        let mut i: usize = 0;
        while i < self.node_ids.len()
            invariant
                i <= self.node_ids@.len(),
                node_ids@ =~= self.node_ids@.take(i as int),
            decreases self.node_ids@.len() - i,
        {
            node_ids.push(self.node_ids[i]);
            i = i + 1;
        }
        proof { assert(self.node_ids@.take(self.node_ids@.len() as int) =~= self.node_ids@); }
        ReplicaShardInfo { id: self.id, group_id: self.group_id, node_ids, owns: self.owns }
    }
}

/// The shards of a database and policy over a time range.
#[derive(Debug, Clone)]
pub struct ShardGroup {
    pub id: u64,
    pub database: String,
    pub retention_policy: String,
    pub start_time: i64,
    pub end_time: i64,
    pub shards: Vec<ReplicaShardInfo>,
}

/// The abstract value of a shard group.
pub struct ShardGroupView {
    pub id: u64,
    pub database: Seq<char>,
    pub retention_policy: Seq<char>,
    pub start_time: i64,
    pub end_time: i64,
    pub shards: Seq<ReplicaShardInfoView>,
}

impl View for ShardGroup {
    type V = ShardGroupView;

    open spec fn view(&self) -> ShardGroupView {
        ShardGroupView {
            id: self.id,
            database: self.database@,
            retention_policy: self.retention_policy@,
            start_time: self.start_time,
            end_time: self.end_time,
            shards: self.shards@.map_values(|s: ReplicaShardInfo| s@),
        }
    }
}

impl ShardGroup {
    /// A copy with the same abstract value.
    pub fn duplicate(&self) -> (r: Self)
        ensures
            r@ == self@,
    {
        let mut shards: Vec<ReplicaShardInfo> = Vec::new();
        let mut i: usize = 0;
        while i < self.shards.len()
            invariant
                i <= self.shards@.len(),
                shards@.map_values(|s: ReplicaShardInfo| s@) =~= self.shards@.map_values(|s: ReplicaShardInfo| s@).take(i as int),
            decreases self.shards@.len() - i,
        {
            let s = self.shards[i].duplicate();
            proof {
                assert(shards@.push(s).map_values(|s: ReplicaShardInfo| s@) =~= shards@.map_values(|s: ReplicaShardInfo| s@).push(s@));
            }
            shards.push(s);
            i = i + 1;
        }
        proof {
            assert(self.shards@.map_values(|s: ReplicaShardInfo| s@).take(self.shards@.len() as int)
                =~= self.shards@.map_values(|s: ReplicaShardInfo| s@));
        }
        ShardGroup {
            id: self.id,
            database: self.database.clone(),
            retention_policy: self.retention_policy.clone(),
            start_time: self.start_time,
            end_time: self.end_time,
            shards,
        }
    }
}

/// A database as the meta service knows it: its name and shard groups.
#[derive(Debug, Clone)]
pub struct DatabaseInfo {
    pub name: String,
    pub shard_groups: Vec<ShardGroup>,
}

/// The abstract value of a database's meta data.
pub struct DatabaseInfoView {
    pub name: Seq<char>,
    pub shard_groups: Seq<ShardGroupView>,
}

impl View for DatabaseInfo {
    type V = DatabaseInfoView;

    open spec fn view(&self) -> DatabaseInfoView {
        DatabaseInfoView { name: self.name@, shard_groups: self.shard_groups@.map_values(|g: ShardGroup| g@) }
    }
}

impl DatabaseInfo {
    /// A copy with the same abstract value.
    pub fn duplicate(&self) -> (r: Self)
        ensures
            r@ == self@,
    {
        let mut groups: Vec<ShardGroup> = Vec::new();
        let mut i: usize = 0;
        while i < self.shard_groups.len()
            invariant
                i <= self.shard_groups@.len(),
                groups@.map_values(|g: ShardGroup| g@) =~= self.shard_groups@.map_values(|g: ShardGroup| g@).take(i as int),
            decreases self.shard_groups@.len() - i,
        {
            let g = self.shard_groups[i].duplicate();
            proof {
                assert(groups@.push(g).map_values(|g: ShardGroup| g@) =~= groups@.map_values(|g: ShardGroup| g@).push(g@));
            }
            groups.push(g);
            i = i + 1;
        }
        proof {
            assert(self.shard_groups@.map_values(|g: ShardGroup| g@).take(self.shard_groups@.len() as int)
                =~= self.shard_groups@.map_values(|g: ShardGroup| g@));
        }
        DatabaseInfo { name: self.name.clone(), shard_groups: groups }
    }
}


/// What a client of the meta service can ask and change.
pub trait MetaClient: Send + Sync {
    fn node_id(&self) -> u64;
    fn leader(&self) -> Option<NodeInfo>;
    fn peers(&self) -> Vec<NodeInfo>;
    fn is_leader(&self) -> bool;
    fn create_database(&mut self, name: &str) -> Result<DatabaseInfo, Error>;
    fn get_database(&self, name: &str) -> Result<Option<DatabaseInfo>, Error>;
    fn list_databases(&self) -> Result<Vec<String>, Error>;
    fn create_retention_policy(&mut self, db: &str, name: &str, duration: u64, replica: u32) -> Result<(), Error>;
    fn get_retention_policy(&self, db: &str, name: &str) -> Result<Option<RetentionPolicy>, Error>;
    fn create_measurement(&mut self, db: &str, rp: &str, name: &str) -> Result<(), Error>;
    fn update_shard_readers(&mut self, shard_mapping: &ShardMapping) -> Result<(), Error>;
    fn get_shard_mappings(&self, db: &str, rp: &str, start: i64, end: i64) -> Result<Vec<ShardMapping>, Error>;
    fn get_shard_owner(&self, shard_id: u64) -> Result<Option<ShardMapping>, Error>;
    fn acquire_node(&self) -> Result<u64, Error>;
    fn node(&self) -> Result<NodeInfo, Error>;
}

/// The name under which a database is kept.
pub open spec fn info_key() -> spec_fn(DatabaseInfo) -> Seq<char> {
    |d: DatabaseInfo| d.name@
}

/// The value of a kept database.
pub open spec fn info_val() -> spec_fn(DatabaseInfo) -> DatabaseInfoView {
    |d: DatabaseInfo| d@
}

/// The shard under which a mapping is kept.
pub open spec fn mapping_key() -> spec_fn(ShardMapping) -> u64 {
    |m: ShardMapping| m.shard_id
}

/// The value of a kept mapping.
pub open spec fn mapping_val() -> spec_fn(ShardMapping) -> ShardMappingView {
    |m: ShardMapping| m@
}

/// The database and name under which a policy is kept.
pub open spec fn policy_key() -> spec_fn((String, RetentionPolicy)) -> (Seq<char>, Seq<char>) {
    |e: (String, RetentionPolicy)| (e.0@, e.1.name@)
}

/// The value of a kept policy.
pub open spec fn policy_val() -> spec_fn((String, RetentionPolicy)) -> RetentionPolicyView {
    |e: (String, RetentionPolicy)| e.1@
}

/// Whether a mapping belongs to a database and policy and overlaps a time range.
pub open spec fn selects(m: ShardMappingView, db: Seq<char>, rp: Seq<char>, start: i64, end: i64) -> bool {
    m.database == db && m.retention_policy == rp && m.start_time <= end && m.end_time >= start
}

/// The abstract values of a list of nodes.
pub open spec fn nodes_view(v: Seq<NodeInfo>) -> Seq<NodeInfoView> {
    v.map_values(|n: NodeInfo| n@)
}

/// The abstract values of a list of mappings.
pub open spec fn mappings_view(v: Seq<ShardMapping>) -> Seq<ShardMappingView> {
    v.map_values(|m: ShardMapping| m@)
}

/// The first leading node of a list.
pub open spec fn first_leader(peers: Seq<NodeInfoView>) -> Option<NodeInfoView>
    decreases peers.len(),
{
    if peers.len() == 0 {
        None
    } else if peers[0].is_leader {
        Some(peers[0])
    } else {
        first_leader(peers.drop_first())
    }
}

/// A meta service of one node, kept in memory.
pub struct MetaClientStub {
    node_id: u64,
    peers: Vec<NodeInfo>,
    databases: Vec<DatabaseInfo>,
    shard_mappings: Vec<ShardMapping>,
    retention_policies: Vec<(String, RetentionPolicy)>,
}

impl MetaClientStub {
    #[verifier::type_invariant]
    spec fn keys_distinct(self) -> bool {
        &&& keys_unique(self.databases@, info_key())
        &&& keys_unique(self.shard_mappings@, mapping_key())
        &&& keys_unique(self.retention_policies@, policy_key())
    }

    /// This node's id.
    pub closed spec fn id(&self) -> u64 {
        self.node_id
    }

    /// The peers, in order.
    pub closed spec fn peer_list(&self) -> Seq<NodeInfoView> {
        nodes_view(self.peers@)
    }

    /// The databases, by name.
    pub closed spec fn databases(&self) -> Map<Seq<char>, DatabaseInfoView> {
        keyed(self.databases@, info_key(), info_val())
    }

    /// The names of the databases, in the order they were first created.
    pub closed spec fn database_names(&self) -> Seq<Seq<char>> {
        self.databases@.map_values(|d: DatabaseInfo| d.name@)
    }

    /// The mappings, in the order their shards were first mapped.
    pub closed spec fn mapping_list(&self) -> Seq<ShardMappingView> {
        mappings_view(self.shard_mappings@)
    }

    /// The mappings, by shard.
    pub closed spec fn shard_map(&self) -> Map<u64, ShardMappingView> {
        keyed(self.shard_mappings@, mapping_key(), mapping_val())
    }

    /// The retention policies, by database and name.
    pub closed spec fn policies(&self) -> Map<(Seq<char>, Seq<char>), RetentionPolicyView> {
        keyed(self.retention_policies@, policy_key(), policy_val())
    }

    /// A meta service for a node and its peers, with nothing in it.
    pub fn new(node_id: u64, peers: Vec<NodeInfo>) -> (r: Self)
        ensures
            r.id() == node_id,
            r.peer_list() == nodes_view(peers@),
            r.databases() == Map::<Seq<char>, DatabaseInfoView>::empty(),
            r.mapping_list().len() == 0,
            r.shard_map() == Map::<u64, ShardMappingView>::empty(),
            r.policies() == Map::<(Seq<char>, Seq<char>), RetentionPolicyView>::empty(),
    {
        MetaClientStub {
            node_id,
            peers,
            databases: Vec::new(),
            shard_mappings: Vec::new(),
            retention_policies: Vec::new(),
        }
    }

    fn find_db(&self, name: &str) -> (r: Option<usize>)
        ensures
            match r {
                Some(i) => i < self.databases@.len() && self.databases@[i as int].name@ == name@,
                None => forall|j: int| 0 <= j < self.databases@.len() ==> info_key()(self.databases@[j]) != name@,
            },
    {
        let mut i: usize = 0;
        while i < self.databases.len()
            invariant
                i <= self.databases@.len(),
                forall|j: int| 0 <= j < i ==> info_key()(self.databases@[j]) != name@,
            decreases self.databases@.len() - i,
        {
            if str_eq(self.databases[i].name.as_str(), name) {
                return Some(i);
            }
            i = i + 1;
        }
        None
    }

    fn put_db(&mut self, db: DatabaseInfo)
        ensures
            final(self).databases() == old(self).databases().insert(db.name@, db@),
            final(self).id() == old(self).id(),
            final(self).peer_list() == old(self).peer_list(),
            final(self).shard_map() == old(self).shard_map(),
            final(self).mapping_list() == old(self).mapping_list(),
            final(self).policies() == old(self).policies(),
    {
        proof { use_type_invariant(&*self); }
        let found = self.find_db(db.name.as_str());
        let mut dbs: Vec<DatabaseInfo> = Vec::new();
        std::mem::swap(&mut dbs, &mut self.databases);
        match found {
            Some(i) => {
                proof { lemma_keyed_update(dbs@, info_key(), info_val(), i as int, db); }
                dbs.set(i, db);
            },
            None => {
                proof {
                    lemma_keyed_absent(dbs@, info_key(), info_val(), db.name@);
                    lemma_keyed_push(dbs@, info_key(), info_val(), db);
                }
                dbs.push(db);
            },
        }
        self.databases = dbs;
    }

    /// The service with a database added, or replacing one of its name.
    pub fn with_database(self, db: DatabaseInfo) -> (r: Self)
        ensures
            r.databases() == self.databases().insert(db.name@, db@),
            r.id() == self.id(),
            r.peer_list() == self.peer_list(),
            r.shard_map() == self.shard_map(),
            r.mapping_list() == self.mapping_list(),
            r.policies() == self.policies(),
    {
        let mut s = self;
        s.put_db(db);
        s
    }
}


/// The names of a list of databases with distinct names are the keys of
/// its map, each once.
proof fn lemma_names(dbs: Seq<DatabaseInfo>)
    requires
        keys_unique(dbs, info_key()),
    ensures
        dbs.map_values(|d: DatabaseInfo| d.name@).to_set() == keyed(dbs, info_key(), info_val()).dom(),
        dbs.map_values(|d: DatabaseInfo| d.name@).no_duplicates(),
{
    lemma_keyed_facts(dbs, info_key(), info_val());
    let names = dbs.map_values(|d: DatabaseInfo| d.name@);
    let m = keyed(dbs, info_key(), info_val());
    assert forall|k: Seq<char>| names.to_set().contains(k) <==> m.dom().contains(k) by {
        if names.to_set().contains(k) {
            let i = choose|i: int| 0 <= i < names.len() && names[i] == k;
            assert(info_key()(dbs[i]) == k);
        }
        if m.dom().contains(k) {
            let i = choose|i: int| 0 <= i < dbs.len() && info_key()(dbs[i]) == k;
            assert(names[i] == k);
        }
    }
    assert(names.to_set() =~= m.dom());
    assert forall|i: int, j: int| 0 <= i < names.len() && 0 <= j < names.len() && i != j implies names[i] != names[j] by {
        if i < j {
            assert(info_key()(dbs[i]) != info_key()(dbs[j]));
        } else {
            assert(info_key()(dbs[j]) != info_key()(dbs[i]));
        }
    }
}

/// A list of mappings with distinct shards holds exactly the mappings of
/// its map.
proof fn lemma_mappings(maps: Seq<ShardMapping>)
    requires
        keys_unique(maps, mapping_key()),
    ensures
        forall|m: ShardMappingView| #[trigger] mappings_view(maps).contains(m)
            <==> (keyed(maps, mapping_key(), mapping_val()).contains_key(m.shard_id)
                && keyed(maps, mapping_key(), mapping_val())[m.shard_id] == m),
{
    lemma_keyed_facts(maps, mapping_key(), mapping_val());
    let ml = mappings_view(maps);
    let km = keyed(maps, mapping_key(), mapping_val());
    assert forall|m: ShardMappingView| #[trigger] ml.contains(m) <==> (km.contains_key(m.shard_id) && km[m.shard_id] == m) by {
        if ml.contains(m) {
            let i = choose|i: int| 0 <= i < ml.len() && ml[i] == m;
            assert(mapping_key()(maps[i]) == m.shard_id);
        }
        if km.contains_key(m.shard_id) && km[m.shard_id] == m {
            let i = choose|i: int| 0 <= i < maps.len() && mapping_key()(maps[i]) == m.shard_id;
            assert(ml[i] == maps[i]@);
        }
    }
}


/// The mappings of a list that a query selects, in order.
pub open spec fn selected(maps: Seq<ShardMappingView>, db: Seq<char>, rp: Seq<char>, start: i64, end: i64) -> Seq<ShardMappingView>
    decreases maps.len(),
{
    if maps.len() == 0 {
        Seq::empty()
    } else if selects(maps.last(), db, rp, start, end) {
        selected(maps.drop_last(), db, rp, start, end).push(maps.last())
    } else {
        selected(maps.drop_last(), db, rp, start, end)
    }
}

/// The policy that `create_retention_policy` keeps.
pub open spec fn new_policy(name: Seq<char>, duration: u64, replica: u32) -> RetentionPolicyView {
    RetentionPolicyView { name, duration_seconds: duration, replica_count: replica, shard_duration_seconds: 604800 }
}

impl MetaClientStub {
    fn find_mapping(&self, shard_id: u64) -> (r: Option<usize>)
        ensures
            match r {
                Some(i) => i < self.shard_mappings@.len() && self.shard_mappings@[i as int].shard_id == shard_id,
                None => forall|j: int| 0 <= j < self.shard_mappings@.len() ==> mapping_key()(self.shard_mappings@[j]) != shard_id,
            },
    {
        let mut i: usize = 0;
        while i < self.shard_mappings.len()
            invariant
                i <= self.shard_mappings@.len(),
                forall|j: int| 0 <= j < i ==> mapping_key()(self.shard_mappings@[j]) != shard_id,
            decreases self.shard_mappings@.len() - i,
        {
            if self.shard_mappings[i].shard_id == shard_id {
                return Some(i);
            }
            i = i + 1;
        }
        None
    }

    fn find_policy(&self, db: &str, name: &str) -> (r: Option<usize>)
        ensures
            match r {
                Some(i) => i < self.retention_policies@.len() && policy_key()(self.retention_policies@[i as int]) == (db@, name@),
                None => forall|j: int| 0 <= j < self.retention_policies@.len() ==> policy_key()(self.retention_policies@[j]) != (db@, name@),
            },
    {
        let mut i: usize = 0;
        while i < self.retention_policies.len()
            invariant
                i <= self.retention_policies@.len(),
                forall|j: int| 0 <= j < i ==> policy_key()(self.retention_policies@[j]) != (db@, name@),
            decreases self.retention_policies@.len() - i,
        {
            if str_eq(self.retention_policies[i].0.as_str(), db) && str_eq(self.retention_policies[i].1.name.as_str(), name) {
                return Some(i);
            }
            i = i + 1;
        }
        None
    }
}

impl MetaClient for MetaClientStub {
    /// This node's id.
    fn node_id(&self) -> (r: u64)
        ensures
            r == self.id(),
    {
        self.node_id
    }

    /// The first peer that leads.
    fn leader(&self) -> (r: Option<NodeInfo>)
        ensures
            match first_leader(self.peer_list()) {
                Some(n) => r matches Some(x) && x@ == n,
                None => r is None,
            },
    {
        let mut i: usize = 0;
        proof { assert(nodes_view(self.peers@).skip(0) =~= nodes_view(self.peers@)); }
        while i < self.peers.len()
            invariant
                i <= self.peers@.len(),
                first_leader(self.peer_list()) == first_leader(nodes_view(self.peers@).skip(i as int)),
            decreases self.peers@.len() - i,
        {
            proof {
                let rest = nodes_view(self.peers@).skip(i as int);
                assert(rest.drop_first() =~= nodes_view(self.peers@).skip(i + 1));
                assert(rest[0] == self.peers@[i as int]@);
            }
            if self.peers[i].is_leader {
                return Some(self.peers[i].duplicate());
            }
            i = i + 1;
        }
        proof { assert(nodes_view(self.peers@).skip(i as int) =~= Seq::<NodeInfoView>::empty()); }
        None
    }

    /// The peers.
    fn peers(&self) -> (r: Vec<NodeInfo>)
        ensures
            nodes_view(r@) == self.peer_list(),
    {
        let mut v: Vec<NodeInfo> = Vec::new();
        let mut i: usize = 0;
        while i < self.peers.len()
            invariant
                i <= self.peers@.len(),
                nodes_view(v@) =~= nodes_view(self.peers@).take(i as int),
            decreases self.peers@.len() - i,
        {
            let n = self.peers[i].duplicate();
            proof { assert(nodes_view(v@.push(n)) =~= nodes_view(v@).push(n@)); }
            v.push(n);
            i = i + 1;
        }
        proof { assert(nodes_view(self.peers@).take(self.peers@.len() as int) =~= nodes_view(self.peers@)); }
        v
    }

    /// Whether some peer leads.
    fn is_leader(&self) -> (r: bool)
        ensures
            r == first_leader(self.peer_list()) is Some,
    {
        self.leader().is_some()
    }

    /// Creates a database with no shard groups, replacing one of its name.
    fn create_database(&mut self, name: &str) -> (r: Result<DatabaseInfo, Error>)
        ensures
            r matches Ok(d) && d@ == (DatabaseInfoView { name: name@, shard_groups: Seq::empty() }),
            final(self).databases() == old(self).databases().insert(name@, DatabaseInfoView { name: name@, shard_groups: Seq::empty() }),
            final(self).id() == old(self).id(),
            final(self).peer_list() == old(self).peer_list(),
            final(self).shard_map() == old(self).shard_map(),
            final(self).mapping_list() == old(self).mapping_list(),
            final(self).policies() == old(self).policies(),
    {
        let db = DatabaseInfo { name: name.to_owned(), shard_groups: Vec::new() };
        let copy = db.duplicate();
        proof { assert(db@.shard_groups =~= Seq::<ShardGroupView>::empty()); }
        self.put_db(db);
        Ok(copy)
    }

    /// The database of a name.
    fn get_database(&self, name: &str) -> (r: Result<Option<DatabaseInfo>, Error>)
        ensures
            match r {
                Ok(Some(d)) => self.databases().contains_key(name@) && self.databases()[name@] == d@,
                Ok(None) => !self.databases().contains_key(name@),
                Err(_) => false,
            },
    {
        proof { use_type_invariant(self); }
        match self.find_db(name) {
            Some(i) => {
                proof {
                    lemma_keyed_facts(self.databases@, info_key(), info_val());
                    assert(info_key()(self.databases@[i as int]) == name@);
                }
                Ok(Some(self.databases[i].duplicate()))
            },
            None => {
                proof { lemma_keyed_absent(self.databases@, info_key(), info_val(), name@); }
                Ok(None)
            },
        }
    }

    /// The names of the databases, each once.
    fn list_databases(&self) -> (r: Result<Vec<String>, Error>)
        ensures
            r matches Ok(v) && strings(v@) == self.database_names()
                && strings(v@).to_set() == self.databases().dom() && strings(v@).no_duplicates(),
    {
        proof {
            use_type_invariant(self);
            lemma_names(self.databases@);
        }
        let mut v: Vec<String> = Vec::new();
        let mut i: usize = 0;
        while i < self.databases.len()
            invariant
                i <= self.databases@.len(),
                strings(v@) =~= self.database_names().take(i as int),
            decreases self.databases@.len() - i,
        {
            let n = self.databases[i].name.clone();
            proof { assert(strings(v@.push(n)) =~= strings(v@).push(n@)); }
            v.push(n);
            i = i + 1;
        }
        proof { assert(self.database_names().take(self.databases@.len() as int) =~= self.database_names()); }
        Ok(v)
    }

    /// Keeps a policy of a database, replacing one of its name.
    fn create_retention_policy(&mut self, db: &str, name: &str, duration: u64, replica: u32) -> (r: Result<(), Error>)
        ensures
            r is Ok,
            final(self).policies() == old(self).policies().insert((db@, name@), new_policy(name@, duration, replica)),
            final(self).id() == old(self).id(),
            final(self).peer_list() == old(self).peer_list(),
            final(self).databases() == old(self).databases(),
            final(self).shard_map() == old(self).shard_map(),
            final(self).mapping_list() == old(self).mapping_list(),
    {
        proof { use_type_invariant(&*self); }
        let rp = RetentionPolicy::new(name.to_owned(), duration).with_replica_count(replica);
        let entry = (db.to_owned(), rp);
        let found = self.find_policy(db, name);
        let mut ps: Vec<(String, RetentionPolicy)> = Vec::new();
        std::mem::swap(&mut ps, &mut self.retention_policies);
        match found {
            Some(i) => {
                proof { lemma_keyed_update(ps@, policy_key(), policy_val(), i as int, entry); }
                ps.set(i, entry);
            },
            None => {
                proof {
                    lemma_keyed_absent(ps@, policy_key(), policy_val(), (db@, name@));
                    lemma_keyed_push(ps@, policy_key(), policy_val(), entry);
                }
                ps.push(entry);
            },
        }
        self.retention_policies = ps;
        Ok(())
    }

    /// The policy of a database by name.
    fn get_retention_policy(&self, db: &str, name: &str) -> (r: Result<Option<RetentionPolicy>, Error>)
        ensures
            match r {
                Ok(Some(p)) => self.policies().contains_key((db@, name@)) && self.policies()[(db@, name@)] == p@,
                Ok(None) => !self.policies().contains_key((db@, name@)),
                Err(_) => false,
            },
    {
        proof { use_type_invariant(self); }
        match self.find_policy(db, name) {
            Some(i) => {
                proof {
                    lemma_keyed_facts(self.retention_policies@, policy_key(), policy_val());
                    assert(policy_key()(self.retention_policies@[i as int]) == (db@, name@));
                }
                Ok(Some(self.retention_policies[i].1.duplicate()))
            },
            None => {
                proof { lemma_keyed_absent(self.retention_policies@, policy_key(), policy_val(), (db@, name@)); }
                Ok(None)
            },
        }
    }

    /// Accepts a measurement; the service keeps nothing of it.
    fn create_measurement(&mut self, db: &str, rp: &str, name: &str) -> (r: Result<(), Error>)
        ensures
            r is Ok,
            *final(self) == *old(self),
    {
        Ok(())
    }

    /// Records which node holds a shard, replacing what was known of it.
    fn update_shard_readers(&mut self, shard_mapping: &ShardMapping) -> (r: Result<(), Error>)
        ensures
            r is Ok,
            final(self).shard_map() == old(self).shard_map().insert(shard_mapping.shard_id, shard_mapping@),
            final(self).id() == old(self).id(),
            final(self).peer_list() == old(self).peer_list(),
            final(self).databases() == old(self).databases(),
            final(self).policies() == old(self).policies(),
    {
        proof { use_type_invariant(&*self); }
        let m = shard_mapping.duplicate();
        let found = self.find_mapping(m.shard_id);
        let mut ms: Vec<ShardMapping> = Vec::new();
        std::mem::swap(&mut ms, &mut self.shard_mappings);
        match found {
            Some(i) => {
                proof { lemma_keyed_update(ms@, mapping_key(), mapping_val(), i as int, m); }
                ms.set(i, m);
            },
            None => {
                proof {
                    lemma_keyed_absent(ms@, mapping_key(), mapping_val(), m.shard_id);
                    lemma_keyed_push(ms@, mapping_key(), mapping_val(), m);
                }
                ms.push(m);
            },
        }
        self.shard_mappings = ms;
        Ok(())
    }

    /// The mappings of a database and policy that overlap a time range; the
    /// list of mappings holds each kept mapping once.
    fn get_shard_mappings(&self, db: &str, rp: &str, start: i64, end: i64) -> (r: Result<Vec<ShardMapping>, Error>)
        ensures
            r matches Ok(v) && mappings_view(v@) == selected(self.mapping_list(), db@, rp@, start, end),
            forall|m: ShardMappingView| #[trigger] self.mapping_list().contains(m)
                <==> (self.shard_map().contains_key(m.shard_id) && self.shard_map()[m.shard_id] == m),
    {
        proof {
            use_type_invariant(self);
            lemma_mappings(self.shard_mappings@);
        }
        let mut v: Vec<ShardMapping> = Vec::new();
        let mut i: usize = 0;
        while i < self.shard_mappings.len()
            invariant
                i <= self.shard_mappings@.len(),
                mappings_view(v@) == selected(self.mapping_list().take(i as int), db@, rp@, start, end),
            decreases self.shard_mappings@.len() - i,
        {
            let m = &self.shard_mappings[i];
            let keep = str_eq(m.database.as_str(), db) && str_eq(m.retention_policy.as_str(), rp)
                && m.start_time <= end && m.end_time >= start;
            proof {
                let t = self.mapping_list().take(i + 1);
                assert(t.drop_last() =~= self.mapping_list().take(i as int));
                assert(t.last() == m@);
            }
            if keep {
                let c = m.duplicate();
                proof { assert(mappings_view(v@.push(c)) =~= mappings_view(v@).push(c@)); }
                v.push(c);
            }
            i = i + 1;
        }
        proof { assert(self.mapping_list().take(self.shard_mappings@.len() as int) =~= self.mapping_list()); }
        Ok(v)
    }

    /// The mapping of a shard.
    fn get_shard_owner(&self, shard_id: u64) -> (r: Result<Option<ShardMapping>, Error>)
        ensures
            match r {
                Ok(Some(m)) => self.shard_map().contains_key(shard_id) && self.shard_map()[shard_id] == m@,
                Ok(None) => !self.shard_map().contains_key(shard_id),
                Err(_) => false,
            },
    {
        proof { use_type_invariant(self); }
        match self.find_mapping(shard_id) {
            Some(i) => {
                proof {
                    lemma_keyed_facts(self.shard_mappings@, mapping_key(), mapping_val());
                    assert(mapping_key()(self.shard_mappings@[i as int]) == shard_id);
                }
                Ok(Some(self.shard_mappings[i].duplicate()))
            },
            None => {
                proof { lemma_keyed_absent(self.shard_mappings@, mapping_key(), mapping_val(), shard_id); }
                Ok(None)
            },
        }
    }

    /// This node's id.
    fn acquire_node(&self) -> (r: Result<u64, Error>)
        ensures
            r matches Ok(id) && id == self.id(),
    {
        Ok(self.node_id)
    }

    /// This node, at the local address, not leading, at term 0.
    fn node(&self) -> (r: Result<NodeInfo, Error>)
        ensures
            r matches Ok(n) && n@ == (NodeInfoView { id: self.id(), addr: "127.0.0.1:8080"@, is_leader: false, term: 0 }),
    {
        Ok(NodeInfo::new(self.node_id, "127.0.0.1:8080".to_owned()))
    }
}

} // verus!
