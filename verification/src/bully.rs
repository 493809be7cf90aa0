//! The Bully election state machine and the heartbeat monitor's decisions.
//!
//! One value of [`BullyElection`] holds everything a node knows about
//! leadership: its own identity, the peer registry, the current leader and
//! the liveness hint. Every transition of the protocol is a method here with
//! an exact contract over the state's mathematical view, [`ElectionView`].
//! Network sends, timeouts and the periodic monitor loop live outside the
//! core; they call the decision methods below and carry out the steps those
//! return.

use crate::assoc::{assoc_lookup, lemma_assoc_lookup_found, lemma_assoc_lookup_none};
use vstd::prelude::*;

verus! {

/// The election-protocol message vocabulary.
#[derive(Debug, Clone, PartialEq, Eq, Structural)]
pub enum BullyMessage {
    Election { from_id: u32 },
    Answer { from_id: u32 },
    Coordinator { leader_id: u32 },
    Heartbeat { from_id: u32 },
    HeartbeatAck { from_id: u32 },
}

/// A registered peer: unique positive identifier and network endpoint.
#[derive(Debug, Clone)]
pub struct NodeInfo {
    pub id: u32,
    pub address: String,
}

/// The mathematical view of one node's election state: the registry in
/// registration order as (id, address) pairs, and the leadership fields.
#[verifier::ext_equal]
pub struct ElectionView {
    pub node_id: u32,
    pub node_address: Seq<char>,
    pub peers: Seq<(u32, Seq<char>)>,
    pub current_leader: Option<u32>,
    pub leader_alive: bool,
}

/// The registry view of a list of peers.
pub open spec fn peers_view(s: Seq<NodeInfo>) -> Seq<(u32, Seq<char>)> {
    s.map_values(|p: NodeInfo| (p.id, p.address@))
}

impl ElectionView {
    /// Registry keys are unique.
    pub open spec fn wf(self) -> bool {
        forall|i: int, j: int|
            0 <= i < j < self.peers.len() ==> (#[trigger] self.peers[i]).0 != (
            #[trigger] self.peers[j]).0
    }

    /// Some peer with this identifier is registered.
    pub open spec fn registered(self, id: u32) -> bool {
        exists|i: int| 0 <= i < self.peers.len() && (#[trigger] self.peers[i]).0 == id
    }

    /// Some registered peer outranks this node.
    pub open spec fn has_higher_peer(self) -> bool {
        exists|i: int| 0 <= i < self.peers.len() && (#[trigger] self.peers[i]).0 > self.node_id
    }

    /// This node believes itself leader.
    pub open spec fn is_self_leader(self) -> bool {
        self.current_leader == Some(self.node_id)
    }
}

/// What `set_leader` does to the state: records the leader and marks it alive.
pub open spec fn spec_set_leader(v: ElectionView, leader_id: u32) -> ElectionView {
    ElectionView { current_leader: Some(leader_id), leader_alive: true, ..v }
}

/// What a received message does to the state, and what it sends back.
#[derive(Debug, Clone, PartialEq, Eq, Structural)]
pub struct MessageOutcome {
    /// The reply to send to the sender, if any.
    pub reply: Option<BullyMessage>,
    /// Whether the receiver must start an election of its own.
    pub start_election: bool,
}

/// The message-driven transition function of the protocol: for each inbound
/// message, the successor state and the outcome.
pub open spec fn spec_handle(v: ElectionView, msg: BullyMessage) -> (ElectionView, MessageOutcome) {
    match msg {
        BullyMessage::Election { from_id } => {
            if v.node_id > from_id {
                (
                    v,
                    MessageOutcome {
                        reply: Some(BullyMessage::Answer { from_id: v.node_id }),
                        start_election: true,
                    },
                )
            } else {
                (v, MessageOutcome { reply: None, start_election: false })
            }
        },
        BullyMessage::Coordinator { leader_id } => (
            spec_set_leader(v, leader_id),
            MessageOutcome { reply: None, start_election: false },
        ),
        BullyMessage::Heartbeat { from_id } => (
            v,
            MessageOutcome {
                reply: Some(BullyMessage::HeartbeatAck { from_id: v.node_id }),
                start_election: false,
            },
        ),
        BullyMessage::Answer { from_id } => (
            v,
            MessageOutcome { reply: None, start_election: false },
        ),
        BullyMessage::HeartbeatAck { from_id } => (
            v,
            MessageOutcome { reply: None, start_election: false },
        ),
    }
}

/// The registered peers that outrank `n`, in registry order.
pub open spec fn higher_of(ps: Seq<(u32, Seq<char>)>, n: u32) -> Seq<(u32, Seq<char>)>
    decreases ps.len(),
{
    if ps.len() == 0 {
        Seq::empty()
    } else {
        let rest = higher_of(ps.drop_last(), n);
        if ps.last().0 > n {
            rest.push(ps.last())
        } else {
            rest
        }
    }
}

/// The first step of an election round.
pub enum ElectionStep {
    /// No higher peer is registered: this node has led already (the state is
    /// updated) and `Coordinator` must be sent to every registered peer.
    Lead { announce: Vec<NodeInfo> },
    /// Higher peers exist: `Election` must be sent to each of them, and the
    /// collected answers handed to `finish_election`.
    Probe { targets: Vec<NodeInfo> },
}

/// One node's election state machine.
pub struct BullyElection {
    pub node_id: u32,
    pub node_address: String,
    pub peers: Vec<NodeInfo>,
    pub current_leader: Option<u32>,
    pub leader_alive: bool,
}

impl View for BullyElection {
    type V = ElectionView;

    open spec fn view(&self) -> ElectionView {
        ElectionView {
            node_id: self.node_id,
            node_address: self.node_address@,
            peers: peers_view(self.peers@),
            current_leader: self.current_leader,
            leader_alive: self.leader_alive,
        }
    }
}

/// What the heartbeat monitor must do on one tick.
pub enum MonitorStep {
    /// No leader is known, or this node is the leader: nothing to probe.
    Idle,
    /// Probe the leader at its registered address and hand the outcome to
    /// `record_heartbeat`.
    Probe { leader_id: u32, address: String },
    /// A leader is recorded but not registered: it cannot be probed, and a
    /// new election must start.
    MissingLeader,
}

impl BullyElection {
    pub fn new(node_id: u32, node_address: String) -> (r: BullyElection)
        ensures
            r@.node_id == node_id,
            r@.node_address == node_address@,
            r@.peers == Seq::<(u32, Seq<char>)>::empty(),
            r@.current_leader is None,
            r@.leader_alive,
            r@.wf(),
    {
        let r = BullyElection {
            node_id,
            node_address,
            peers: Vec::new(),
            current_leader: None,
            leader_alive: true,
        };
        proof {
            assert(r@.peers =~= Seq::<(u32, Seq<char>)>::empty());
        }
        r
    }

    /// The registry index holding `id`, by linear scan.
    fn find_peer_index(&self, id: u32) -> (r: Option<usize>)
        ensures
            match r {
                Some(i) => 0 <= i < self@.peers.len() && self@.peers[i as int].0 == id && (
                forall|j: int| 0 <= j < i ==> (#[trigger] self@.peers[j]).0 != id),
                None => forall|j: int|
                    0 <= j < self@.peers.len() ==> (#[trigger] self@.peers[j]).0 != id,
            },
    {
        let mut i: usize = 0;
        while i < self.peers.len()
            invariant
                0 <= i <= self.peers.len(),
                forall|j: int| 0 <= j < i ==> (#[trigger] self@.peers[j]).0 != id,
            decreases self.peers.len() - i,
        {
            proof {
                assert(self@.peers[i as int] == (self.peers@[i as int].id,
                self.peers@[i as int].address@));
            }
            if self.peers[i].id == id {
                return Some(i);
            }
            i += 1;
        }
        None
    }

    /// Inserts the peer, overwriting any entry with the same identifier.
    pub fn add_peer(&mut self, id: u32, address: String)
        requires
            old(self)@.wf(),
        ensures
            final(self)@.wf(),
            final(self)@.node_id == old(self)@.node_id,
            final(self)@.node_address == old(self)@.node_address,
            final(self)@.current_leader == old(self)@.current_leader,
            final(self)@.leader_alive == old(self)@.leader_alive,
            old(self)@.registered(id) ==> exists|i: int|
                0 <= i < old(self)@.peers.len() && (#[trigger] old(self)@.peers[i]).0 == id
                    && final(self)@.peers == old(self)@.peers.update(i, (id, address@)),
            !old(self)@.registered(id) ==> final(self)@.peers == old(self)@.peers.push(
                (id, address@),
            ),
            final(self)@.registered(id),
    {
        let ghost prior = self@.peers;
        match self.find_peer_index(id) {
            Some(i) => {
                self.peers.set(i, NodeInfo { id, address });
                proof {
                    assert(self@.peers =~= prior.update(i as int, (id, address@)));
                    assert(self@.peers[i as int].0 == id);
                    assert(forall|x: int|
                        0 <= x < self@.peers.len() ==> (#[trigger] self@.peers[x]).0 == (
                        #[trigger] prior[x]).0);
                }
            },
            None => {
                self.peers.push(NodeInfo { id, address });
                proof {
                    assert(self@.peers =~= prior.push((id, address@)));
                    assert(self@.peers[prior.len() as int].0 == id);
                }
            },
        }
    }

    /// The registry as (id, address) pairs, in registration order.
    pub fn get_all_peers(&self) -> (r: Vec<(u32, String)>)
        ensures
            r@.len() == self@.peers.len(),
            forall|i: int|
                0 <= i < r@.len() ==> ((#[trigger] r@[i]).0, r@[i].1@) == self@.peers[i],
    {
        let mut r: Vec<(u32, String)> = Vec::new();
        let mut i: usize = 0;
        while i < self.peers.len()
            invariant
                0 <= i <= self.peers.len(),
                r@.len() == i,
                forall|j: int|
                    0 <= j < i ==> ((#[trigger] r@[j]).0, r@[j].1@) == self@.peers[j],
            decreases self.peers.len() - i,
        {
            let p = &self.peers[i];
            r.push((p.id, p.address.clone()));
            i += 1;
        }
        r
    }

    pub fn get_leader(&self) -> (r: Option<u32>)
        ensures
            r == self@.current_leader,
    {
        self.current_leader
    }

    /// Records the leader and marks it alive. Idempotent.
    pub fn set_leader(&mut self, leader_id: u32)
        ensures
            final(self)@ == spec_set_leader(old(self)@, leader_id),
    {
        self.current_leader = Some(leader_id);
        self.leader_alive = true;
        proof {
            assert(final(self)@ =~= spec_set_leader(old(self)@, leader_id));
        }
    }

    pub fn is_leader(&self) -> (r: bool)
        ensures
            r == self@.is_self_leader(),
    {
        match self.current_leader {
            Some(leader_id) => leader_id == self.node_id,
            None => false,
        }
    }

    /// The message-driven transition: applies `msg` to the state and returns
    /// the reply to send, and whether an election must start.
    pub fn handle_message(&mut self, msg: BullyMessage) -> (outcome: MessageOutcome)
        ensures
            final(self)@ == spec_handle(old(self)@, msg).0,
            outcome == spec_handle(old(self)@, msg).1,
    {
        match msg {
            BullyMessage::Election { from_id } => {
                if self.node_id > from_id {
                    MessageOutcome {
                        reply: Some(BullyMessage::Answer { from_id: self.node_id }),
                        start_election: true,
                    }
                } else {
                    MessageOutcome { reply: None, start_election: false }
                }
            },
            BullyMessage::Coordinator { leader_id } => {
                self.set_leader(leader_id);
                MessageOutcome { reply: None, start_election: false }
            },
            BullyMessage::Heartbeat { from_id: _ } => {
                MessageOutcome {
                    reply: Some(BullyMessage::HeartbeatAck { from_id: self.node_id }),
                    start_election: false,
                }
            },
            BullyMessage::Answer { from_id: _ } => {
                MessageOutcome { reply: None, start_election: false }
            },
            BullyMessage::HeartbeatAck { from_id: _ } => {
                MessageOutcome { reply: None, start_election: false }
            },
        }
    }

    /// Starts an election round. With no higher peer registered the node
    /// declares itself leader at once and hands back the peers to which
    /// `Coordinator` must go; otherwise it hands back the higher peers to
    /// probe with `Election`, leaving the state untouched until
    /// `finish_election`.
    pub fn begin_election(&mut self) -> (step: ElectionStep)
        ensures
            !old(self)@.has_higher_peer() ==> final(self)@ == spec_set_leader(
                old(self)@,
                old(self)@.node_id,
            ) && (step matches ElectionStep::Lead { announce } && peers_view(announce@) == old(
                self,
            )@.peers),
            old(self)@.has_higher_peer() ==> final(self)@ == old(self)@ && (
            step matches ElectionStep::Probe { targets } && peers_view(targets@) == higher_of(
                old(self)@.peers,
                old(self)@.node_id,
            )),
    {
        let targets = self.higher_peers();
        if targets.len() == 0 {
            proof {
                lemma_higher_of_all(self@.peers, self@.node_id);
            }
            let announce = self.peers_snapshot();
            self.set_leader(self.node_id);
            ElectionStep::Lead { announce }
        } else {
            proof {
                lemma_higher_of_all(self@.peers, self@.node_id);
            }
            ElectionStep::Probe { targets }
        }
    }

    /// Ends an election round begun with `ElectionStep::Probe`. If no higher
    /// peer answered, the node declares itself leader and hands back the
    /// peers to which `Coordinator` must go; if one answered, nothing
    /// changes: the node waits for a `Coordinator` message.
    pub fn finish_election(&mut self, received_answer: bool) -> (announce: Option<Vec<NodeInfo>>)
        ensures
            received_answer ==> final(self)@ == old(self)@ && announce is None,
            !received_answer ==> final(self)@ == spec_set_leader(old(self)@, old(self)@.node_id)
                && (announce matches Some(a) && peers_view(a@) == old(self)@.peers),
    {
        if received_answer {
            None
        } else {
            let announce = self.peers_snapshot();
            self.set_leader(self.node_id);
            Some(announce)
        }
    }

    /// What the heartbeat monitor must do this tick: probe the leader's
    /// registered address, start an election over a leader that is not
    /// registered, or nothing when the node is leaderless or leads itself.
    pub fn monitor_step(&self) -> (step: MonitorStep)
        ensures
            match step {
                MonitorStep::Idle => self@.current_leader is None || self@.current_leader == Some(
                    self@.node_id,
                ),
                MonitorStep::Probe { leader_id, address } => self@.current_leader == Some(leader_id)
                    && leader_id != self@.node_id && assoc_lookup(self@.peers, leader_id) == Some(
                    address@,
                ),
                MonitorStep::MissingLeader => (self@.current_leader matches Some(l) && l
                    != self@.node_id && assoc_lookup(self@.peers, l) is None),
            },
    {
        let leader_id = match self.current_leader {
            None => {
                return MonitorStep::Idle;
            },
            Some(leader_id) => leader_id,
        };
        if leader_id == self.node_id {
            return MonitorStep::Idle;
        }
        match self.find_peer_index(leader_id) {
            Some(i) => {
                proof {
                    lemma_assoc_lookup_found(self@.peers, leader_id, i as int);
                    assert(self@.peers[i as int] == (self.peers@[i as int].id,
                    self.peers@[i as int].address@));
                }
                MonitorStep::Probe { leader_id, address: self.peers[i].address.clone() }
            },
            None => {
                proof {
                    lemma_assoc_lookup_none(self@.peers, leader_id);
                }
                MonitorStep::MissingLeader
            },
        }
    }

    /// Records a heartbeat probe's outcome in the liveness hint; a failed
    /// probe demands a new election.
    pub fn record_heartbeat(&mut self, acked: bool) -> (needs_election: bool)
        ensures
            final(self)@ == (ElectionView { leader_alive: acked, ..old(self)@ }),
            needs_election == !acked,
    {
        self.leader_alive = acked;
        proof {
            assert(final(self)@ =~= (ElectionView { leader_alive: acked, ..old(self)@ }));
        }
        !acked
    }

    /// The registered peers with identifiers above this node's, in registry
    /// order.
    fn higher_peers(&self) -> (r: Vec<NodeInfo>)
        ensures
            peers_view(r@) == higher_of(self@.peers, self@.node_id),
    {
        let mut r: Vec<NodeInfo> = Vec::new();
        let mut i: usize = 0;
        proof {
            assert(self@.peers.subrange(0, 0) =~= Seq::<(u32, Seq<char>)>::empty());
            assert(peers_view(r@) =~= higher_of(self@.peers.subrange(0, 0), self@.node_id));
        }
        while i < self.peers.len()
            invariant
                0 <= i <= self.peers.len(),
                peers_view(r@) == higher_of(self@.peers.subrange(0, i as int), self@.node_id),
            decreases self.peers.len() - i,
        {
            let ghost pre = peers_view(r@);
            let p = &self.peers[i];
            if p.id > self.node_id {
                r.push(NodeInfo { id: p.id, address: p.address.clone() });
                proof {
                    assert(peers_view(r@) =~= pre.push((p.id, p.address@)));
                }
            }
            proof {
                let full = self@.peers;
                let upto = full.subrange(0, i as int + 1);
                assert(upto.drop_last() =~= full.subrange(0, i as int));
                assert(upto.last() == full[i as int]);
            }
            i += 1;
        }
        proof {
            assert(self@.peers.subrange(0, self@.peers.len() as int) =~= self@.peers);
        }
        r
    }

    /// A copy of the whole election state.
    pub fn clone(&self) -> (r: BullyElection)
        ensures
            r@ == self@,
    {
        let r = BullyElection {
            node_id: self.node_id,
            node_address: self.node_address.clone(),
            peers: self.peers_snapshot(),
            current_leader: self.current_leader,
            leader_alive: self.leader_alive,
        };
        proof {
            assert(r@ =~= self@);
        }
        r
    }

    /// A copy of the registry, in registry order.
    fn peers_snapshot(&self) -> (r: Vec<NodeInfo>)
        ensures
            peers_view(r@) == self@.peers,
    {
        let mut r: Vec<NodeInfo> = Vec::new();
        let mut i: usize = 0;
        while i < self.peers.len()
            invariant
                0 <= i <= self.peers.len(),
                r@.len() == i,
                forall|j: int| 0 <= j < i ==> peers_view(r@)[j] == self@.peers[j],
            decreases self.peers.len() - i,
        {
            let p = &self.peers[i];
            r.push(NodeInfo { id: p.id, address: p.address.clone() });
            i += 1;
        }
        proof {
            assert(peers_view(r@) =~= self@.peers);
        }
        r
    }
}

/// Law: a node with no higher-id peer registered sends no `Election` probe —
/// its probe list is empty — and by `begin_election`'s contract it declares
/// itself leader at once, alive.
pub proof fn lemma_unchallenged_node_self_elects(v: ElectionView)
    requires
        !v.has_higher_peer(),
    ensures
        higher_of(v.peers, v.node_id).len() == 0,
        spec_set_leader(v, v.node_id).is_self_leader(),
        spec_set_leader(v, v.node_id).leader_alive,
{
    lemma_higher_of_all(v.peers, v.node_id);
}

/// Law (bully priority): an `Election{from}` message draws an `Answer` naming
/// the receiver exactly when the receiver's id is above `from`; otherwise the
/// receiver stays silent. The state never changes, and exactly an answering
/// receiver starts an election round of its own.
pub proof fn lemma_bully_priority(v: ElectionView, from: u32)
    ensures
        ({
            let (v2, out) = spec_handle(v, BullyMessage::Election { from_id: from });
            &&& (out.reply == Some(BullyMessage::Answer { from_id: v.node_id })) <==> v.node_id
                > from
            &&& v.node_id <= from ==> out.reply is None
            &&& out.start_election == (v.node_id > from)
            &&& v2 == v
        }),
{
}

/// Law (heartbeat ack symmetry): a `Heartbeat` always draws a `HeartbeatAck`
/// naming the receiver, whoever the sender is, with no state change and no
/// election started.
pub proof fn lemma_heartbeat_ack(v: ElectionView, from: u32)
    ensures
        ({
            let (v2, out) = spec_handle(v, BullyMessage::Heartbeat { from_id: from });
            &&& out.reply == Some(BullyMessage::HeartbeatAck { from_id: v.node_id })
            &&& !out.start_election
            &&& v2 == v
        }),
{
}

/// Law (idempotence of `set_leader`): recording the same leader twice leaves
/// the state exactly as recording it once, with the leader marked alive.
pub proof fn lemma_set_leader_idempotent(v: ElectionView, leader_id: u32)
    ensures
        spec_set_leader(spec_set_leader(v, leader_id), leader_id) == spec_set_leader(v, leader_id),
        spec_set_leader(v, leader_id).leader_alive,
{
    assert(spec_set_leader(spec_set_leader(v, leader_id), leader_id) =~= spec_set_leader(
        v,
        leader_id,
    ));
}

/// Law (election convergence without contention): in a cluster whose nodes
/// carry distinct identifiers and whose every registered peer is a cluster
/// member, the highest-id node has no higher peer — its round self-declares
/// without probing — and once each node handles that node's `Coordinator`
/// announcement, every node records the highest id as leader and exactly the
/// highest-id node considers itself leader.
pub proof fn lemma_election_round_converges(cluster: Seq<ElectionView>, m: int)
    requires
        0 <= m < cluster.len(),
        forall|a: int, b: int|
            0 <= a < b < cluster.len() ==> (#[trigger] cluster[a]).node_id != (
            #[trigger] cluster[b]).node_id,
        forall|a: int| 0 <= a < cluster.len() ==> (#[trigger] cluster[a]).node_id <= cluster[m].node_id,
        forall|a: int, i: int|
            #![trigger cluster[a].peers[i]]
            0 <= a < cluster.len() && 0 <= i < cluster[a].peers.len() ==> exists|b: int|
                0 <= b < cluster.len() && cluster[a].peers[i].0 == (#[trigger] cluster[b]).node_id,
    ensures
        !cluster[m].has_higher_peer(),
        forall|a: int|
            0 <= a < cluster.len() ==> (#[trigger] spec_handle(
                cluster[a],
                BullyMessage::Coordinator { leader_id: cluster[m].node_id },
            ).0).current_leader == Some(cluster[m].node_id),
        forall|a: int|
            0 <= a < cluster.len() ==> ((#[trigger] spec_handle(
                cluster[a],
                BullyMessage::Coordinator { leader_id: cluster[m].node_id },
            ).0).is_self_leader() <==> a == m),
{
    assert forall|i: int|
        0 <= i < cluster[m].peers.len() implies (#[trigger] cluster[m].peers[i]).0
        <= cluster[m].node_id by {
        let b = choose|b: int|
            0 <= b < cluster.len() && cluster[m].peers[i].0 == cluster[b].node_id;
        assert(cluster[b].node_id <= cluster[m].node_id);
    }
    assert forall|a: int| 0 <= a < cluster.len() && a != m implies (#[trigger] cluster[a]).node_id
        != cluster[m].node_id by {
        if a < m {
            assert(cluster[a].node_id != cluster[m].node_id);
        } else {
            assert(cluster[m].node_id != cluster[a].node_id);
        }
    }
}

/// Bridges the probe list to the quantified form: the list of higher peers is
/// empty exactly when no registered peer outranks `n`, and it holds exactly
/// the higher entries of the registry.
pub proof fn lemma_higher_of_all(ps: Seq<(u32, Seq<char>)>, n: u32)
    ensures
        (higher_of(ps, n).len() == 0) <==> (forall|i: int|
            0 <= i < ps.len() ==> (#[trigger] ps[i]).0 <= n),
        forall|k: int|
            0 <= k < higher_of(ps, n).len() ==> (#[trigger] higher_of(ps, n)[k]).0 > n,
    decreases ps.len(),
{
    if ps.len() > 0 {
        let pre = ps.drop_last();
        lemma_higher_of_all(pre, n);
        assert(forall|i: int| 0 <= i < pre.len() ==> (#[trigger] ps[i]) == pre[i]);
        if ps.last().0 > n {
            assert(ps[ps.len() - 1].0 > n);
        } else {
            if higher_of(ps, n).len() == 0 {
                assert forall|i: int| 0 <= i < ps.len() implies (#[trigger] ps[i]).0 <= n by {
                    if i < ps.len() - 1 {
                        assert(pre[i].0 <= n);
                    } else {
                        assert(ps[i] == ps.last());
                    }
                }
            }
        }
    }
}

} // verus!
