//! Consensus node state: terms, votes, the replicated log and the
//! handling of vote and append requests, plus a registry of nodes.

use vstd::prelude::*;
use std::sync::Arc;
use crate::clock::unix_time_nanos_i64;
use crate::handles::share;
use crate::keyed::{keyed, keys_unique, lemma_keyed_facts, lemma_keyed_update, lemma_keyed_push, lemma_keyed_remove, lemma_keyed_absent};

verus! {

/// The role a node plays.
#[derive(Debug, Clone, Copy, PartialEq, Eq, Structural)]
pub enum NodeState {
    Follower,
    Candidate,
    Leader,
    PreCandidate,
}

impl NodeState {
    /// Whether this role is the leader's.
    pub fn is_leader(&self) -> (r: bool)
        ensures
            r == (*self == NodeState::Leader),
    {
        match self {
            NodeState::Leader => true,
            _ => false,
        }
    }
}

/// The answer to a vote request, as a value.
#[derive(Debug, Clone, Copy, PartialEq, Eq, Structural)]
pub enum VoteResponse {
    Granted,
    Denied,
}

/// A candidate's request for a vote.
#[derive(Debug, Clone, Copy, PartialEq, Eq, Structural)]
pub struct VoteRequest {
    pub term: u64,
    pub candidate_id: u64,
    pub last_log_index: u64,
    pub last_log_term: u64,
}

/// The answer to a vote request.
#[derive(Debug, Clone, Copy, PartialEq, Eq, Structural)]
pub struct VoteResult {
    pub term: u64,
    pub vote_granted: bool,
}

/// A leader's request to append entries to the log.
#[derive(Debug, Clone)]
pub struct AppendEntriesRequest {
    pub term: u64,
    pub leader_id: u64,
    pub prev_log_index: u64,
    pub prev_log_term: u64,
    pub entries: Vec<LogEntry>,
    pub leader_commit: u64,
}

/// The answer to an append request.
#[derive(Debug, Clone, Copy, PartialEq, Eq, Structural)]
pub struct AppendEntriesResult {
    pub term: u64,
    pub success: bool,
    pub match_index: u64,
}

/// One entry of the replicated log.
#[derive(Debug, Clone)]
pub struct LogEntry {
    pub index: u64,
    pub term: u64,
    pub data: LogEntryData,
    pub timestamp: i64,
}

/// What a log entry carries.
#[derive(Debug, Clone)]
pub enum LogEntryData {
    Config { command: ConfigCommand },
    Data { database: String, payload: Vec<u8> },
}

/// A change of cluster configuration. Node addresses are held as text.
#[derive(Debug, Clone)]
pub enum ConfigCommand {
    AddNode { node_id: u64, addr: String },
    RemoveNode { node_id: u64 },
    AddReplica { shard_id: u64, node_ids: Vec<u64> },
    RemoveReplica { shard_id: u64, node_ids: Vec<u64> },
}

/// The abstract value of a configuration command.
pub enum ConfigCommandView {
    AddNode { node_id: u64, addr: Seq<char> },
    RemoveNode { node_id: u64 },
    AddReplica { shard_id: u64, node_ids: Seq<u64> },
    RemoveReplica { shard_id: u64, node_ids: Seq<u64> },
}

/// The abstract value of an entry's payload.
pub enum LogEntryDataView {
    Config { command: ConfigCommandView },
    Data { database: Seq<char>, payload: Seq<u8> },
}

/// The abstract value of a log entry.
pub struct LogEntryView {
    pub index: u64,
    pub term: u64,
    pub data: LogEntryDataView,
    pub timestamp: i64,
}

impl View for ConfigCommand {
    type V = ConfigCommandView;

    open spec fn view(&self) -> ConfigCommandView {
        match self {
            ConfigCommand::AddNode { node_id, addr } => ConfigCommandView::AddNode {
                node_id: *node_id,
                addr: addr@,
            },
            ConfigCommand::RemoveNode { node_id } => ConfigCommandView::RemoveNode { node_id: *node_id },
            ConfigCommand::AddReplica { shard_id, node_ids } => ConfigCommandView::AddReplica {
                shard_id: *shard_id,
                node_ids: node_ids@,
            },
            ConfigCommand::RemoveReplica { shard_id, node_ids } => ConfigCommandView::RemoveReplica {
                shard_id: *shard_id,
                node_ids: node_ids@,
            },
        }
    }
}

impl View for LogEntryData {
    type V = LogEntryDataView;

    open spec fn view(&self) -> LogEntryDataView {
        match self {
            LogEntryData::Config { command } => LogEntryDataView::Config { command: command@ },
            LogEntryData::Data { database, payload } => LogEntryDataView::Data {
                database: database@,
                payload: payload@,
            },
        }
    }
}

impl View for LogEntry {
    type V = LogEntryView;

    open spec fn view(&self) -> LogEntryView {
        LogEntryView {
            index: self.index,
            term: self.term,
            data: self.data@,
            timestamp: self.timestamp,
        }
    }
}

impl ConfigCommand {
    /// A copy with the same abstract value.
    pub fn duplicate(&self) -> (r: Self)
        ensures
            r@ == self@,
    {
        match self {
            ConfigCommand::AddNode { node_id, addr } => ConfigCommand::AddNode {
                node_id: *node_id,
                addr: addr.clone(),
            },
            ConfigCommand::RemoveNode { node_id } => ConfigCommand::RemoveNode { node_id: *node_id },
            ConfigCommand::AddReplica { shard_id, node_ids } => ConfigCommand::AddReplica {
                shard_id: *shard_id,
                node_ids: node_ids.clone(),
            },
            ConfigCommand::RemoveReplica { shard_id, node_ids } => ConfigCommand::RemoveReplica {
                shard_id: *shard_id,
                node_ids: node_ids.clone(),
            },
        }
    }
}

impl LogEntryData {
    /// A copy with the same abstract value.
    pub fn duplicate(&self) -> (r: Self)
        ensures
            r@ == self@,
    {
        match self {
            LogEntryData::Config { command } => LogEntryData::Config { command: command.duplicate() },
            LogEntryData::Data { database, payload } => LogEntryData::Data {
                database: database.clone(),
                payload: payload.clone(),
            },
        }
    }
}

impl LogEntry {
    /// A new entry stamped with the wall clock in nanoseconds.
    pub fn new(index: u64, term: u64, data: LogEntryData) -> (r: Self)
        ensures
            r.index == index,
            r.term == term,
            r.data == data,
    {
        LogEntry { index, term, data, timestamp: unix_time_nanos_i64() }
    }

    /// A copy with the same abstract value.
    pub fn duplicate(&self) -> (r: Self)
        ensures
            r@ == self@,
    {
        LogEntry {
            index: self.index,
            term: self.term,
            data: self.data.duplicate(),
            timestamp: self.timestamp,
        }
    }
}

/// The voting and learning members of the cluster.
#[derive(Debug, Clone)]
pub struct Membership {
    pub voters: Vec<u64>,
    pub learners: Vec<u64>,
}

impl Default for Membership {
    fn default() -> (r: Self)
        ensures
            r.voters@.len() == 0,
            r.learners@.len() == 0,
    {
        Membership { voters: Vec::new(), learners: Vec::new() }
    }
}

impl Membership {
    /// A copy with the same members in the same order.
    pub fn duplicate(&self) -> (r: Self)
        ensures
            r.voters@ == self.voters@,
            r.learners@ == self.learners@,
    {
        Membership { voters: self.voters.clone(), learners: self.learners.clone() }
    }
}

/// A peer of this node. The address is held as text.
#[derive(Debug, Clone)]
pub struct NodeInfo {
    pub id: u64,
    pub addr: String,
    pub state: NodeState,
}

/// The abstract value of a peer.
pub struct NodeInfoView {
    pub id: u64,
    pub addr: Seq<char>,
    pub state: NodeState,
}

impl View for NodeInfo {
    type V = NodeInfoView;

    open spec fn view(&self) -> NodeInfoView {
        NodeInfoView { id: self.id, addr: self.addr@, state: self.state }
    }
}

impl NodeInfo {
    /// A follower peer at the given address.
    pub fn new(id: u64, addr: String) -> (r: Self)
        ensures
            r.id == id,
            r.addr == addr,
            r.state == NodeState::Follower,
    {
        NodeInfo { id, addr, state: NodeState::Follower }
    }

    /// The same peer in another role.
    pub fn with_state(self, state: NodeState) -> (r: Self)
        ensures
            r.id == self.id,
            r.addr == self.addr,
            r.state == state,
    {
        NodeInfo { state, ..self }
    }

    /// A copy with the same abstract value.
    pub fn duplicate(&self) -> (r: Self)
        ensures
            r@ == self@,
    {
        NodeInfo { id: self.id, addr: self.addr.clone(), state: self.state }
    }
}

/// The index of the last entry of a log, or zero when it is empty.
pub open spec fn last_index(log: Seq<LogEntryView>) -> u64 {
    if log.len() == 0 { 0 } else { log.last().index }
}

/// The term of the last entry of a log, or zero when it is empty.
pub open spec fn last_term(log: Seq<LogEntryView>) -> u64 {
    if log.len() == 0 { 0 } else { log.last().term }
}

/// Whether a node in `term` that has voted for `voted_for` and holds `log`
/// grants the vote that `req` asks for.
pub open spec fn grants_vote(
    term: u64,
    voted_for: Option<u64>,
    log: Seq<LogEntryView>,
    req: VoteRequest,
) -> bool {
    &&& req.term >= term
    &&& (voted_for is None || voted_for == Some(req.candidate_id))
    &&& req.last_log_index >= last_index(log)
    &&& req.last_log_term >= last_term(log)
}

/// Whether an append request is refused before the log is touched.
pub open spec fn append_refused(term: u64, log_len: nat, req_term: u64, prev_log_index: u64) -> bool {
    ||| req_term < term
    ||| (prev_log_index > 0 && (prev_log_index as usize) as int > log_len)
}

/// The log once the entries that conflict at `prev_log_index` are cut off.
pub open spec fn log_after_check(log: Seq<LogEntryView>, prev_log_index: u64, prev_log_term: u64) -> Seq<LogEntryView> {
    let p = (prev_log_index as usize) as int;
    if prev_log_index > 0 && p < log.len() && log[p].term != prev_log_term {
        log.take(p)
    } else {
        log
    }
}

/// One entry placed in the log: it overwrites the slot its index names,
/// or is appended when that slot is past the end.
pub open spec fn place_entry(log: Seq<LogEntryView>, e: LogEntryView) -> Seq<LogEntryView> {
    let i = (e.index as usize) as int;
    if i < log.len() { log.update(i, e) } else { log.push(e) }
}

/// The entries placed in the log one after the other.
pub open spec fn place_entries(log: Seq<LogEntryView>, entries: Seq<LogEntryView>) -> Seq<LogEntryView>
    decreases entries.len(),
{
    if entries.len() == 0 {
        log
    } else {
        place_entry(place_entries(log, entries.drop_last()), entries.last())
    }
}

/// The abstract views of a vector of log entries.
pub open spec fn entry_views(v: Seq<LogEntry>) -> Seq<LogEntryView> {
    v.map_values(|e: LogEntry| e@)
}

/// The key of a peer: its id.
pub open spec fn peer_key() -> spec_fn(NodeInfo) -> u64 {
    |p: NodeInfo| p.id
}

/// The value of a peer: its abstract value.
pub open spec fn peer_val() -> spec_fn(NodeInfo) -> NodeInfoView {
    |p: NodeInfo| p@
}

/// The peers as a map from id to peer.
pub open spec fn peer_map(peers: Seq<NodeInfo>) -> Map<u64, NodeInfoView> {
    keyed(peers, peer_key(), peer_val())
}

/// The abstract state of a consensus node.
pub struct RaftNodeView {
    pub node_id: u64,
    pub current_term: u64,
    pub voted_for: Option<u64>,
    pub state: NodeState,
    pub log: Seq<LogEntryView>,
    pub commit_index: u64,
    pub last_applied: u64,
    pub voters: Seq<u64>,
    pub learners: Seq<u64>,
    pub peers: Map<u64, NodeInfoView>,
    pub election_timeout_ms: u64,
    pub heartbeat_interval_ms: u64,
}

/// One node of the consensus group.
pub struct RaftNode {
    node_id: u64,
    current_term: u64,
    voted_for: Option<u64>,
    state: NodeState,
    log: Vec<LogEntry>,
    commit_index: u64,
    last_applied: u64,
    membership: Membership,
    peers: Vec<NodeInfo>,
    election_timeout_ms: u64,
    heartbeat_interval_ms: u64,
}

impl View for RaftNode {
    type V = RaftNodeView;

    closed spec fn view(&self) -> RaftNodeView {
        RaftNodeView {
            node_id: self.node_id,
            current_term: self.current_term,
            voted_for: self.voted_for,
            state: self.state,
            log: entry_views(self.log@),
            commit_index: self.commit_index,
            last_applied: self.last_applied,
            voters: self.membership.voters@,
            learners: self.membership.learners@,
            peers: peer_map(self.peers@),
            election_timeout_ms: self.election_timeout_ms,
            heartbeat_interval_ms: self.heartbeat_interval_ms,
        }
    }
}

proof fn lemma_place_entries_push(log: Seq<LogEntryView>, entries: Seq<LogEntryView>, e: LogEntryView)
    ensures
        place_entries(log, entries.push(e)) == place_entry(place_entries(log, entries), e),
{
    assert(entries.push(e).drop_last() =~= entries);
}

impl RaftNode {
    #[verifier::type_invariant]
    closed spec fn inv(&self) -> bool {
        keys_unique(self.peers@, peer_key())
    }

    /// A follower in term zero with an empty log, no members and no peers.
    pub fn new(node_id: u64, election_timeout_ms: u64, heartbeat_interval_ms: u64) -> (r: Self)
        ensures
            r@ == RaftNode::new_view(node_id, election_timeout_ms, heartbeat_interval_ms),
    {
        let r = RaftNode {
            node_id,
            current_term: 0,
            voted_for: None,
            state: NodeState::Follower,
            log: Vec::new(),
            commit_index: 0,
            last_applied: 0,
            membership: Membership::default(),
            peers: Vec::new(),
            election_timeout_ms,
            heartbeat_interval_ms,
        };
        assert(entry_views(r.log@) =~= Seq::<LogEntryView>::empty());
        assert(r.membership.voters@ =~= Seq::<u64>::empty());
        assert(r.membership.learners@ =~= Seq::<u64>::empty());
        assert(peer_map(r.peers@) =~= Map::<u64, NodeInfoView>::empty());
        r
    }

    /// This node's id.
    pub fn node_id(&self) -> (r: u64)
        ensures
            r == self@.node_id,
    {
        self.node_id
    }

    /// The current term.
    pub fn current_term(&self) -> (r: u64)
        ensures
            r == self@.current_term,
    {
        self.current_term
    }

    /// The current role.
    pub fn state(&self) -> (r: NodeState)
        ensures
            r == self@.state,
    {
        self.state
    }

    /// Whether this node is the leader.
    pub fn is_leader(&self) -> (r: bool)
        ensures
            r == (self@.state == NodeState::Leader),
    {
        self.state.is_leader()
    }

    /// Registers a peer, replacing any peer with the same id.
    pub fn add_peer(&mut self, peer: NodeInfo)
        ensures
            final(self)@ == (RaftNodeView { peers: old(self)@.peers.insert(peer.id, peer@), ..old(self)@ }),
    {
        proof { use_type_invariant(&*self); }
        let n = self.peers.len();
        let mut i: usize = 0;
        while i < n
            invariant
                n == self.peers.len(),
                i <= n,
                *self == *old(self),
                keys_unique(self.peers@, peer_key()),
                forall|j: int| 0 <= j < i ==> self.peers@[j].id != peer.id,
            decreases n - i,
        {
            if self.peers[i].id == peer.id {
                let ghost before = self.peers@;
                proof { lemma_keyed_update(before, peer_key(), peer_val(), i as int, peer); }
                let mut peers: Vec<NodeInfo> = Vec::new();
                std::mem::swap(&mut peers, &mut self.peers);
                peers.set(i, peer);
                self.peers = peers;
                return;
            }
            i = i + 1;
        }
        let ghost before = self.peers@;
        proof {
            lemma_keyed_facts(before, peer_key(), peer_val());
            lemma_keyed_absent(before, peer_key(), peer_val(), peer.id);
            lemma_keyed_push(before, peer_key(), peer_val(), peer);
        }
        let mut peers: Vec<NodeInfo> = Vec::new();
        std::mem::swap(&mut peers, &mut self.peers);
        peers.push(peer);
        self.peers = peers;
    }

    /// Forgets the peer with the given id, if there is one.
    pub fn remove_peer(&mut self, peer_id: u64)
        ensures
            final(self)@ == (RaftNodeView { peers: old(self)@.peers.remove(peer_id), ..old(self)@ }),
    {
        proof { use_type_invariant(&*self); }
        let n = self.peers.len();
        let mut i: usize = 0;
        while i < n
            invariant
                n == self.peers.len(),
                i <= n,
                *self == *old(self),
                keys_unique(self.peers@, peer_key()),
                forall|j: int| 0 <= j < i ==> self.peers@[j].id != peer_id,
            decreases n - i,
        {
            if self.peers[i].id == peer_id {
                let ghost before = self.peers@;
                proof { lemma_keyed_remove(before, peer_key(), peer_val(), i as int); }
                let mut peers: Vec<NodeInfo> = Vec::new();
                std::mem::swap(&mut peers, &mut self.peers);
                peers.remove(i);
                self.peers = peers;
                return;
            }
            i = i + 1;
        }
        proof { lemma_keyed_absent(self.peers@, peer_key(), peer_val(), peer_id); }
    }

    /// Copies of all peers, each once.
    pub fn get_peers(&self) -> (r: Vec<NodeInfo>)
        ensures
            r@.len() == self@.peers.len(),
            forall|i: int| 0 <= i < r@.len() ==> #[trigger] self@.peers.contains_key(r@[i].id)
                && self@.peers[r@[i].id] == r@[i]@,
            forall|i: int, j: int| 0 <= i < j < r@.len() ==> r@[i].id != r@[j].id,
    {
        proof {
            use_type_invariant(self);
            lemma_keyed_facts(self.peers@, peer_key(), peer_val());
        }
        let mut r: Vec<NodeInfo> = Vec::new();
        let mut i: usize = 0;
        while i < self.peers.len()
            invariant
                i <= self.peers@.len(),
                r@.len() == i,
                forall|j: int| 0 <= j < i ==> #[trigger] r@[j]@ == self.peers@[j]@,
            decreases self.peers@.len() - i,
        {
            r.push(self.peers[i].duplicate());
            i = i + 1;
        }
        proof {
            assert forall|i: int, j: int| 0 <= i < j < r@.len() implies r@[i].id != r@[j].id by {
                assert(r@[i]@ == self.peers@[i]@);
                assert(r@[j]@ == self.peers@[j]@);
                assert(peer_key()(self.peers@[i]) != peer_key()(self.peers@[j]));
            }
            assert forall|i: int| 0 <= i < r@.len() implies #[trigger] self@.peers.contains_key(r@[i].id)
                && self@.peers[r@[i].id] == r@[i]@ by {
                assert(r@[i]@ == self.peers@[i]@);
                assert(peer_key()(self.peers@[i]) == r@[i].id);
            }
        }
        r
    }

    /// A copy of the membership.
    pub fn get_membership(&self) -> (r: Membership)
        ensures
            r.voters@ == self@.voters,
            r.learners@ == self@.learners,
    {
        self.membership.duplicate()
    }

    /// Replaces the membership.
    pub fn set_membership(&mut self, membership: Membership)
        ensures
            final(self)@ == (RaftNodeView { voters: membership.voters@, learners: membership.learners@, ..old(self)@ }),
    {
        proof { use_type_invariant(&*self); }
        self.membership = membership;
    }

    /// Appends an entry at the end of the log and returns its index.
    pub fn append_log(&mut self, entry: LogEntry) -> (r: u64)
        ensures
            r == entry.index,
            final(self)@ == (RaftNodeView { log: old(self)@.log.push(entry@), ..old(self)@ }),
    {
        proof { use_type_invariant(&*self); }
        let index = entry.index;
        let ghost e = entry@;
        let mut log: Vec<LogEntry> = Vec::new();
        std::mem::swap(&mut log, &mut self.log);
        log.push(entry);
        self.log = log;
        proof {
            assert(entry_views(self.log@) =~= entry_views(old(self).log@).push(e));
        }
        index
    }

    /// Copies of all log entries, in order.
    pub fn get_log(&self) -> (r: Vec<LogEntry>)
        ensures
            entry_views(r@) == self@.log,
    {
        let mut r: Vec<LogEntry> = Vec::new();
        let mut i: usize = 0;
        while i < self.log.len()
            invariant
                i <= self.log@.len(),
                r@.len() == i,
                forall|j: int| 0 <= j < i ==> #[trigger] r@[j]@ == self.log@[j]@,
            decreases self.log@.len() - i,
        {
            r.push(self.log[i].duplicate());
            i = i + 1;
        }
        proof { assert(entry_views(r@) =~= entry_views(self.log@)); }
        r
    }

    /// A copy of the first entry whose index field equals `index`.
    pub fn get_log_entry(&self, index: u64) -> (r: Option<LogEntry>)
        ensures
            match r {
                Some(e) => exists|i: int| 0 <= i < self@.log.len() && self@.log[i] == e@
                    && e@.index == index
                    && forall|j: int| 0 <= j < i ==> self@.log[j].index != index,
                None => forall|j: int| 0 <= j < self@.log.len() ==> self@.log[j].index != index,
            },
    {
        let mut i: usize = 0;
        while i < self.log.len()
            invariant
                i <= self.log@.len(),
                forall|j: int| 0 <= j < i ==> self@.log[j].index != index,
            decreases self.log@.len() - i,
        {
            if self.log[i].index == index {
                let e = self.log[i].duplicate();
                assert(self@.log[i as int] == self.log@[i as int]@);
                return Some(e);
            }
            i = i + 1;
        }
        None
    }

    /// The index of the last log entry, or zero.
    pub fn last_log_index(&self) -> (r: u64)
        ensures
            r == last_index(self@.log),
    {
        if self.log.len() == 0 { 0 } else { self.log[self.log.len() - 1].index }
    }

    /// The term of the last log entry, or zero.
    pub fn last_log_term(&self) -> (r: u64)
        ensures
            r == last_term(self@.log),
    {
        if self.log.len() == 0 { 0 } else { self.log[self.log.len() - 1].term }
    }

    /// The commit index.
    pub fn commit_index(&self) -> (r: u64)
        ensures
            r == self@.commit_index,
    {
        self.commit_index
    }

    /// Sets the commit index.
    pub fn set_commit_index(&mut self, index: u64)
        ensures
            final(self)@ == (RaftNodeView { commit_index: index, ..old(self)@ }),
    {
        proof { use_type_invariant(&*self); }
        self.commit_index = index;
    }

    /// The index of the last applied entry.
    pub fn last_applied(&self) -> (r: u64)
        ensures
            r == self@.last_applied,
    {
        self.last_applied
    }

    /// Sets the index of the last applied entry.
    pub fn set_last_applied(&mut self, index: u64)
        ensures
            final(self)@ == (RaftNodeView { last_applied: index, ..old(self)@ }),
    {
        proof { use_type_invariant(&*self); }
        self.last_applied = index;
    }

    /// Becomes leader of the next term.
    pub fn become_leader(&mut self)
        requires
            old(self)@.current_term < u64::MAX,
        ensures
            final(self)@ == (RaftNodeView {
                state: NodeState::Leader,
                current_term: (old(self)@.current_term + 1) as u64,
                ..old(self)@
            }),
    {
        proof { use_type_invariant(&*self); }
        self.state = NodeState::Leader;
        self.current_term = self.current_term + 1;
    }

    /// Becomes a follower in the given term.
    pub fn become_follower(&mut self, term: u64)
        ensures
            final(self)@ == (RaftNodeView { state: NodeState::Follower, current_term: term, ..old(self)@ }),
    {
        proof { use_type_invariant(&*self); }
        self.state = NodeState::Follower;
        self.current_term = term;
    }

    /// Becomes a candidate in the next term.
    pub fn become_candidate(&mut self)
        requires
            old(self)@.current_term < u64::MAX,
        ensures
            final(self)@ == (RaftNodeView {
                state: NodeState::Candidate,
                current_term: (old(self)@.current_term + 1) as u64,
                ..old(self)@
            }),
    {
        proof { use_type_invariant(&*self); }
        self.state = NodeState::Candidate;
        self.current_term = self.current_term + 1;
    }

    /// Answers a vote request. The vote is granted when the request's term
    /// is not behind, this node has not voted for another candidate and the
    /// candidate's log is not behind; a granted vote is remembered.
    pub fn request_vote(&mut self, req: VoteRequest) -> (r: VoteResult)
        ensures
            ({
                let s = old(self)@;
                let granted = grants_vote(s.current_term, s.voted_for, s.log, req);
                &&& r.vote_granted == granted
                &&& r.term == (if granted { req.term } else { s.current_term })
                &&& final(self)@ == (RaftNodeView {
                        voted_for: if granted { Some(req.candidate_id) } else { s.voted_for },
                        ..s
                    })
            }),
    {
        proof { use_type_invariant(&*self); }
        let current_term = self.current_term;
        if req.term < current_term {
            return VoteResult { term: current_term, vote_granted: false };
        }
        let may_vote = match self.voted_for {
            None => true,
            Some(c) => c == req.candidate_id,
        };
        if may_vote {
            if req.last_log_index >= self.last_log_index() && req.last_log_term >= self.last_log_term() {
                self.voted_for = Some(req.candidate_id);
                return VoteResult { term: req.term, vote_granted: true };
            }
        }
        VoteResult { term: current_term, vote_granted: false }
    }

    /// Answers an append request. A request from an older term, or one whose
    /// previous index lies past the end of the log, is refused and changes
    /// nothing. Otherwise the log is cut where its entry at the previous
    /// index disagrees on the term, each entry overwrites the slot its index
    /// names or is appended, and the commit index follows the leader's up to
    /// the index of the last entry.
    pub fn append_entries(&mut self, req: AppendEntriesRequest) -> (r: AppendEntriesResult)
        ensures
            ({
                let s = old(self)@;
                if append_refused(s.current_term, s.log.len(), req.term, req.prev_log_index) {
                    &&& r == AppendEntriesResult { term: s.current_term, success: false, match_index: 0 }
                    &&& final(self)@ == s
                } else {
                    let log = place_entries(
                        log_after_check(s.log, req.prev_log_index, req.prev_log_term),
                        entry_views(req.entries@),
                    );
                    let m = last_index(log);
                    &&& r == AppendEntriesResult { term: s.current_term, success: true, match_index: m }
                    &&& final(self)@ == (RaftNodeView {
                            log,
                            commit_index: if req.leader_commit > s.commit_index {
                                if req.leader_commit < m { req.leader_commit } else { m }
                            } else {
                                s.commit_index
                            },
                            ..s
                        })
                }
            }),
    {
        proof { use_type_invariant(&*self); }
        let current_term = self.current_term;
        if req.term < current_term {
            return AppendEntriesResult { term: current_term, success: false, match_index: 0 };
        }
        if req.prev_log_index > 0 && (req.prev_log_index as usize) > self.log.len() {
            return AppendEntriesResult { term: current_term, success: false, match_index: 0 };
        }
        let ghost start = self@;
        let mut log: Vec<LogEntry> = Vec::new();
        std::mem::swap(&mut log, &mut self.log);
        let p = req.prev_log_index as usize;
        if req.prev_log_index > 0 {
            if p >= log.len() {
                log.truncate(p);
            } else if log[p].term != req.prev_log_term {
                log.truncate(p);
            }
        }
        proof {
            assert(entry_views(log@) =~= log_after_check(start.log, req.prev_log_index, req.prev_log_term));
        }
        let ghost checked = entry_views(log@);
        let entries = req.entries;
        let ghost all = entry_views(entries@);
        let mut k: usize = 0;
        let n = entries.len();
        let mut rest = entries;
        while k < n
            invariant
                n == all.len(),
                k <= n,
                rest@.len() == n - k,
                forall|j: int| 0 <= j < rest@.len() ==> #[trigger] rest@[j]@ == all[k + j],
                entry_views(log@) == place_entries(checked, all.take(k as int)),
            decreases n - k,
        {
            let ghost before = entry_views(log@);
            let entry = rest.remove(0);
            let ghost e = entry@;
            assert(e == all[k as int]);
            let idx = entry.index as usize;
            if idx < log.len() {
                log.set(idx, entry);
                proof { assert(entry_views(log@) =~= before.update(idx as int, e)); }
            } else {
                log.push(entry);
                proof { assert(entry_views(log@) =~= before.push(e)); }
            }
            proof {
                assert(all.take(k + 1) =~= all.take(k as int).push(e));
                lemma_place_entries_push(checked, all.take(k as int), e);
            }
            k = k + 1;
        }
        proof { assert(all.take(n as int) =~= all); }
        let match_index = if log.len() == 0 { 0 } else { log[log.len() - 1].index };
        if req.leader_commit > self.commit_index {
            self.commit_index = if req.leader_commit < match_index { req.leader_commit } else { match_index };
        }
        self.log = log;
        AppendEntriesResult { term: current_term, success: true, match_index }
    }

    /// The election timeout in milliseconds.
    pub fn election_timeout_ms(&self) -> (r: u64)
        ensures
            r == self@.election_timeout_ms,
    {
        self.election_timeout_ms
    }

    /// The heartbeat interval in milliseconds.
    pub fn heartbeat_interval_ms(&self) -> (r: u64)
        ensures
            r == self@.heartbeat_interval_ms,
    {
        self.heartbeat_interval_ms
    }

    /// The number of log entries.
    pub fn log_len(&self) -> (r: usize)
        ensures
            r == self@.log.len(),
    {
        self.log.len()
    }
}


/// The key of a registered node: its id.
pub open spec fn node_key() -> spec_fn(Arc<RaftNode>) -> u64 {
    |n: Arc<RaftNode>| n@.node_id
}

/// The value of a registered node: its abstract state.
pub open spec fn node_val() -> spec_fn(Arc<RaftNode>) -> RaftNodeView {
    |n: Arc<RaftNode>| n@
}

/// A registry of the consensus nodes of this process, one per id.
pub struct RaftCluster {
    nodes: Vec<Arc<RaftNode>>,
    local_node: Option<Arc<RaftNode>>,
}

impl RaftCluster {
    #[verifier::type_invariant]
    closed spec fn inv(&self) -> bool {
        keys_unique(self.nodes@, node_key())
    }

    /// The registered nodes by id.
    pub closed spec fn nodes(&self) -> Map<u64, RaftNodeView> {
        keyed(self.nodes@, node_key(), node_val())
    }

    /// The local node's state, when one is set.
    pub closed spec fn local(&self) -> Option<RaftNodeView> {
        match self.local_node {
            Some(n) => Some(n@),
            None => None,
        }
    }

    /// An empty registry.
    pub fn new() -> (r: Self)
        ensures
            r.nodes() == Map::<u64, RaftNodeView>::empty(),
            r.local() is None,
    {
        let r = RaftCluster { nodes: Vec::new(), local_node: None };
        assert(r.nodes() =~= Map::<u64, RaftNodeView>::empty());
        r
    }

    /// Creates a node, registers it under its id (replacing any node with
    /// that id) and returns it.
    pub fn create_node(&mut self, node_id: u64, election_timeout_ms: u64, heartbeat_interval_ms: u64) -> (r: Arc<RaftNode>)
        ensures
            r@ == RaftNode::new_view(node_id, election_timeout_ms, heartbeat_interval_ms),
            final(self).nodes() == old(self).nodes().insert(node_id, r@),
            final(self).local() == old(self).local(),
    {
        let node = Arc::new(RaftNode::new(node_id, election_timeout_ms, heartbeat_interval_ms));
        self.remove_node(node_id);
        proof { use_type_invariant(&*self); }
        let ghost before = self.nodes@;
        proof {
            lemma_keyed_push(before, node_key(), node_val(), node);
        }
        let mut nodes: Vec<Arc<RaftNode>> = Vec::new();
        std::mem::swap(&mut nodes, &mut self.nodes);
        nodes.push(share(&node));
        self.nodes = nodes;
        proof {
            assert(old(self).nodes().remove(node_id).insert(node_id, node@) =~= old(self).nodes().insert(node_id, node@));
        }
        node
    }

    /// The registered node with the given id.
    pub fn get_node(&self, node_id: u64) -> (r: Option<Arc<RaftNode>>)
        ensures
            match r {
                Some(n) => self.nodes().contains_key(node_id) && self.nodes()[node_id] == n@,
                None => !self.nodes().contains_key(node_id),
            },
    {
        proof {
            use_type_invariant(self);
            lemma_keyed_facts(self.nodes@, node_key(), node_val());
        }
        let mut i: usize = 0;
        while i < self.nodes.len()
            invariant
                i <= self.nodes@.len(),
                keys_unique(self.nodes@, node_key()),
                forall|j: int| 0 <= j < i ==> self.nodes@[j]@.node_id != node_id,
            decreases self.nodes@.len() - i,
        {
            if self.nodes[i].node_id() == node_id {
                proof {
                    lemma_keyed_facts(self.nodes@, node_key(), node_val());
                    assert(node_key()(self.nodes@[i as int]) == node_id);
                    assert(self.nodes()[node_key()(self.nodes@[i as int])] == node_val()(self.nodes@[i as int]));
                }
                let r = share(&self.nodes[i]);
                return Some(r);
            }
            i = i + 1;
        }
        proof { lemma_keyed_absent(self.nodes@, node_key(), node_val(), node_id); }
        None
    }

    /// Unregisters the node with the given id; true when there was one.
    pub fn remove_node(&mut self, node_id: u64) -> (r: bool)
        ensures
            r == old(self).nodes().contains_key(node_id),
            final(self).nodes() == old(self).nodes().remove(node_id),
            final(self).local() == old(self).local(),
    {
        proof {
            use_type_invariant(&*self);
            lemma_keyed_facts(self.nodes@, node_key(), node_val());
        }
        let n = self.nodes.len();
        let mut i: usize = 0;
        while i < n
            invariant
                n == self.nodes@.len(),
                i <= n,
                *self == *old(self),
                keys_unique(self.nodes@, node_key()),
                forall|j: int| 0 <= j < i ==> self.nodes@[j]@.node_id != node_id,
            decreases n - i,
        {
            if self.nodes[i].node_id() == node_id {
                let ghost before = self.nodes@;
                proof {
                    lemma_keyed_facts(before, node_key(), node_val());
                    lemma_keyed_remove(before, node_key(), node_val(), i as int);
                    assert(node_key()(before[i as int]) == node_id);
                }
                let mut nodes: Vec<Arc<RaftNode>> = Vec::new();
                std::mem::swap(&mut nodes, &mut self.nodes);
                nodes.remove(i);
                self.nodes = nodes;
                return true;
            }
            i = i + 1;
        }
        proof { lemma_keyed_absent(self.nodes@, node_key(), node_val(), node_id); }
        false
    }

    /// The ids of the registered nodes, each once.
    pub fn list_nodes(&self) -> (r: Vec<u64>)
        ensures
            r@.to_set() == self.nodes().dom(),
            r@.no_duplicates(),
    {
        proof {
            use_type_invariant(self);
            lemma_keyed_facts(self.nodes@, node_key(), node_val());
        }
        let mut r: Vec<u64> = Vec::new();
        let mut i: usize = 0;
        while i < self.nodes.len()
            invariant
                i <= self.nodes@.len(),
                r@.len() == i,
                forall|j: int| 0 <= j < i ==> #[trigger] r@[j] == self.nodes@[j]@.node_id,
            decreases self.nodes@.len() - i,
        {
            r.push(self.nodes[i].node_id());
            i = i + 1;
        }
        proof {
            assert forall|a: int, b: int| 0 <= a < b < r@.len() implies r@[a] != r@[b] by {
                assert(node_key()(self.nodes@[a]) != node_key()(self.nodes@[b]));
            }
            assert forall|k: u64| r@.to_set().contains(k) <==> self.nodes().dom().contains(k) by {
                if r@.to_set().contains(k) {
                    let j = choose|j: int| 0 <= j < r@.len() && r@[j] == k;
                    assert(node_key()(self.nodes@[j]) == k);
                }
                if self.nodes().contains_key(k) {
                    let j = choose|j: int| 0 <= j < self.nodes@.len() && node_key()(self.nodes@[j]) == k;
                    assert(r@[j] == k);
                }
            }
            assert(r@.to_set() =~= self.nodes().dom());
        }
        r
    }

    /// Sets the local node.
    pub fn set_local_node(&mut self, node: Arc<RaftNode>)
        ensures
            final(self).local() == Some(node@),
            final(self).nodes() == old(self).nodes(),
    {
        proof { use_type_invariant(&*self); }
        self.local_node = Some(node);
    }

    /// The local node, when one is set.
    pub fn get_local_node(&self) -> (r: Option<Arc<RaftNode>>)
        ensures
            match r {
                Some(n) => self.local() == Some(n@),
                None => self.local() is None,
            },
    {
        match &self.local_node {
            Some(n) => Some(share(n)),
            None => None,
        }
    }

    /// The number of registered nodes.
    pub fn node_count(&self) -> (r: usize)
        ensures
            r == self.nodes().len(),
    {
        proof {
            use_type_invariant(self);
            lemma_keyed_facts(self.nodes@, node_key(), node_val());
        }
        self.nodes.len()
    }
}

impl RaftNode {
    /// The state of a freshly created node.
    pub open spec fn new_view(node_id: u64, election_timeout_ms: u64, heartbeat_interval_ms: u64) -> RaftNodeView {
        RaftNodeView {
            node_id,
            current_term: 0,
            voted_for: None,
            state: NodeState::Follower,
            log: Seq::empty(),
            commit_index: 0,
            last_applied: 0,
            voters: Seq::empty(),
            learners: Seq::empty(),
            peers: Map::empty(),
            election_timeout_ms,
            heartbeat_interval_ms,
        }
    }
}

/// A node that has voted for one candidate denies its vote to every other
/// candidate, whatever the term and logs.
pub proof fn law_one_vote_per_node(term: u64, c: u64, log: Seq<LogEntryView>, req: VoteRequest)
    requires
        req.candidate_id != c,
    ensures
        !grants_vote(term, Some(c), log, req),
{
}

/// A node's state after vote requests, one after another, as
/// `request_vote` leaves it.
pub open spec fn after_votes(s: RaftNodeView, reqs: Seq<VoteRequest>) -> RaftNodeView
    decreases reqs.len(),
{
    if reqs.len() == 0 {
        s
    } else {
        let p = after_votes(s, reqs.drop_last());
        let granted = grants_vote(p.current_term, p.voted_for, p.log, reqs.last());
        RaftNodeView { voted_for: if granted { Some(reqs.last().candidate_id) } else { p.voted_for }, ..p }
    }
}

/// Once a node has voted for a candidate, its vote stays with that
/// candidate through any later vote requests, and every request from
/// another candidate is refused: a node grants its vote to one candidate
/// only.
pub proof fn law_vote_stays_with_candidate(s: RaftNodeView, a: u64, reqs: Seq<VoteRequest>)
    requires
        s.voted_for == Some(a),
    ensures
        after_votes(s, reqs).voted_for == Some(a),
        forall|i: int| 0 <= i < reqs.len() && (#[trigger] reqs[i]).candidate_id != a ==> {
            let p = after_votes(s, reqs.take(i));
            !grants_vote(p.current_term, p.voted_for, p.log, reqs[i])
        },
    decreases reqs.len(),
{
    if reqs.len() > 0 {
        law_vote_stays_with_candidate(s, a, reqs.drop_last());
        assert forall|i: int| 0 <= i < reqs.len() && (#[trigger] reqs[i]).candidate_id != a implies {
            let p = after_votes(s, reqs.take(i));
            !grants_vote(p.current_term, p.voted_for, p.log, reqs[i])
        } by {
            if i < reqs.len() - 1 {
                assert(reqs.take(i) =~= reqs.drop_last().take(i));
                assert(reqs[i] == reqs.drop_last()[i]);
            } else {
                assert(reqs.take(i) =~= reqs.drop_last());
            }
        }
    }
}

/// A vote is granted to every candidate whose request is not behind the
/// node's term, for whom the node has not voted for someone else, and whose
/// last log entry is at least as recent, by index and by term, as the
/// node's.
pub proof fn law_vote_granted_to_current_candidate(term: u64, voted_for: Option<u64>, log: Seq<LogEntryView>, req: VoteRequest)
    requires
        req.term >= term,
        voted_for is None || voted_for == Some(req.candidate_id),
        req.last_log_index >= (if log.len() == 0 { 0 } else { log.last().index }),
        req.last_log_term >= (if log.len() == 0 { 0 } else { log.last().term }),
    ensures
        grants_vote(term, voted_for, log, req),
{
}

/// A vote is only granted to a candidate whose last log entry is at least
/// as recent, by index and by term, as the voter's.
pub proof fn law_vote_needs_current_log(term: u64, voted_for: Option<u64>, log: Seq<LogEntryView>, req: VoteRequest)
    requires
        grants_vote(term, voted_for, log, req),
    ensures
        req.last_log_index >= last_index(log),
        req.last_log_term >= last_term(log),
        req.term >= term,
{
}

/// Placing entries never shortens the log, and lengthens it by at most
/// one slot per entry.
pub proof fn law_place_entries_length(log: Seq<LogEntryView>, entries: Seq<LogEntryView>)
    ensures
        log.len() <= place_entries(log, entries).len() <= log.len() + entries.len(),
    decreases entries.len(),
{
    if entries.len() > 0 {
        law_place_entries_length(log, entries.drop_last());
    }
}

/// After a placed entry, the slot its index names (or the new last slot)
/// holds that very entry.
pub proof fn law_placed_entry_is_readable(log: Seq<LogEntryView>, e: LogEntryView)
    ensures
        ({
            let l = place_entry(log, e);
            let i = (e.index as usize) as int;
            if i < log.len() { l[i] == e } else { l.last() == e && l.len() == log.len() + 1 }
        }),
{
}

} // verus!
