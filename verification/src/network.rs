//! The network node: neighbor table, RPC dispatch and routing decisions.
//!
//! A node is single-threaded and cooperative: the host drives a
//! receive–decide loop, hands every decoded RPC to [`SwarmNetwork`], and
//! performs the outbound sends and local deliveries the node decides on.
//! The node itself never touches a socket.

use vstd::prelude::*;
use crate::agent::{AgentV, SwarmAddr, SwarmAgent};
use crate::swarm::{MsgV, SwarmMsg};
use crate::Location;

verus! {

/// One of the five wire messages of the swarm protocol.
#[derive(Clone, Debug, PartialEq, Eq)]
pub enum IronSwarmRPC<L> {
    /// A liveness probe carrying the sending agent.
    HRTBT(SwarmAgent<L>),
    /// The probe's answer: the responder's neighbors plus the responder.
    HRTBTACK(Vec<SwarmAgent<L>>),
    /// A request to place the carried agent into the overlay.
    JOIN(SwarmAgent<L>),
    /// A message routed greedily toward a target location.
    INFO(L, SwarmMsg<L>),
    /// A message delivered to whoever receives it.
    BROADCAST(SwarmMsg<L>),
}

/// The mathematical value of an [`IronSwarmRPC`].
pub enum RpcV<L> {
    Hrtbt(AgentV<L>),
    HrtbtAck(Seq<AgentV<L>>),
    Join(AgentV<L>),
    Info(L, MsgV<L>),
    Broadcast(MsgV<L>),
}

impl<L> RpcV<L> {
    /// Identities carried inside the RPC are 20 bytes.
    pub open spec fn wf(self) -> bool {
        match self {
            RpcV::Hrtbt(a) => a.wf(),
            RpcV::HrtbtAck(list) => forall|i: int| 0 <= i < list.len() ==> (#[trigger] list[i]).wf(),
            RpcV::Join(a) => a.wf(),
            RpcV::Info(_, m) => m.wf(),
            RpcV::Broadcast(m) => m.wf(),
        }
    }
}

impl<L> View for IronSwarmRPC<L> {
    type V = RpcV<L>;

    open spec fn view(&self) -> RpcV<L> {
        match self {
            IronSwarmRPC::HRTBT(a) => RpcV::Hrtbt(a@),
            IronSwarmRPC::HRTBTACK(v) => RpcV::HrtbtAck(
                v@.map_values(|a: SwarmAgent<L>| a@),
            ),
            IronSwarmRPC::JOIN(a) => RpcV::Join(a@),
            IronSwarmRPC::INFO(l, m) => RpcV::Info(*l, m@),
            IronSwarmRPC::BROADCAST(m) => RpcV::Broadcast(m@),
        }
    }
}


/// Bound on the neighbor table: overfull nodes are invisible to newcomers.
pub const MAX_NEIGHBORS: u8 = 3;

/// One datagram the node wants sent: an RPC and where to send it.
pub struct Outbound<L> {
    pub dest: SwarmAddr,
    pub rpc: IronSwarmRPC<L>,
}

/// What handling one RPC asks of the host.
pub enum DispatchOutcome<L> {
    /// Send this datagram onward.
    Send(Outbound<L>),
    /// Hand this message to the controller.
    Deliver(SwarmMsg<L>),
    /// Nothing leaves the node.
    Quiet,
}

// ---------------------------------------------------------------------------
// The neighbor table, as mathematics.
// ---------------------------------------------------------------------------

/// Some table entry carries the identifier `id`.
pub open spec fn table_has_id<L>(ns: Seq<SwarmAgent<L>>, id: Seq<u8>) -> bool {
    exists|i: int| 0 <= i < ns.len() && (#[trigger] ns[i]).swarm_id@ == id
}

/// No two table entries share an identifier.
pub open spec fn ids_unique<L>(ns: Seq<SwarmAgent<L>>) -> bool {
    forall|i: int, j: int|
        0 <= i < j < ns.len() ==> (#[trigger] ns[i]).swarm_id@ != (#[trigger] ns[j]).swarm_id@
}

/// The table invariant: entries are unique by identifier and the local
/// agent is never among them.
pub open spec fn table_wf<L>(self_agent: SwarmAgent<L>, ns: Seq<SwarmAgent<L>>) -> bool {
    ids_unique(ns) && !table_has_id(ns, self_agent.swarm_id@)
}

/// Inserting appends, unless the agent is the local agent or its
/// identifier is already present; then it is a no-op.
pub open spec fn insert_spec<L>(
    ns: Seq<SwarmAgent<L>>,
    self_agent: SwarmAgent<L>,
    a: SwarmAgent<L>,
) -> Seq<SwarmAgent<L>> {
    if a.swarm_id@ == self_agent.swarm_id@ || table_has_id(ns, a.swarm_id@) {
        ns
    } else {
        ns.push(a)
    }
}

/// Gossip assimilation: each listed agent is inserted in input order, so
/// entries equal to the local agent or already known are dropped.
pub open spec fn merge_spec<L>(
    ns: Seq<SwarmAgent<L>>,
    self_agent: SwarmAgent<L>,
    list: Seq<SwarmAgent<L>>,
) -> Seq<SwarmAgent<L>>
    decreases list.len(),
{
    if list.len() == 0 {
        ns
    } else {
        merge_spec(insert_spec(ns, self_agent, list[0]), self_agent, list.skip(1))
    }
}

/// Inserting preserves the table invariant and grows the table by at most
/// one entry.
pub proof fn lemma_insert_wf<L>(
    ns: Seq<SwarmAgent<L>>,
    self_agent: SwarmAgent<L>,
    a: SwarmAgent<L>,
)
    requires
        table_wf(self_agent, ns),
    ensures
        table_wf(self_agent, insert_spec(ns, self_agent, a)),
        ns.len() <= insert_spec(ns, self_agent, a).len() <= ns.len() + 1,
{
    let post = insert_spec(ns, self_agent, a);
    if post != ns {
        assert(forall|i: int| 0 <= i < ns.len() ==> post[i] == ns[i]);
        assert(ids_unique(post));
        assert(!table_has_id(post, self_agent.swarm_id@));
    }
}

/// Assimilating gossip preserves the table invariant.
pub proof fn lemma_merge_wf<L>(
    ns: Seq<SwarmAgent<L>>,
    self_agent: SwarmAgent<L>,
    list: Seq<SwarmAgent<L>>,
)
    requires
        table_wf(self_agent, ns),
    ensures
        table_wf(self_agent, merge_spec(ns, self_agent, list)),
    decreases list.len(),
{
    if list.len() > 0 {
        lemma_insert_wf(ns, self_agent, list[0]);
        lemma_merge_wf(insert_spec(ns, self_agent, list[0]), self_agent, list.skip(1));
    }
}

/// Assimilating one more gossiped agent is inserting it last.
pub proof fn lemma_merge_snoc<L>(
    ns: Seq<SwarmAgent<L>>,
    self_agent: SwarmAgent<L>,
    list: Seq<SwarmAgent<L>>,
    a: SwarmAgent<L>,
)
    ensures
        merge_spec(ns, self_agent, list.push(a)) == insert_spec(
            merge_spec(ns, self_agent, list),
            self_agent,
            a,
        ),
    decreases list.len(),
{
    if list.len() == 0 {
        assert(list.push(a)[0] == a);
        assert(list.push(a).skip(1) =~= Seq::<SwarmAgent<L>>::empty());
        assert(merge_spec(ns, self_agent, list.push(a)) == merge_spec(
            insert_spec(ns, self_agent, a),
            self_agent,
            Seq::<SwarmAgent<L>>::empty(),
        ));
        assert(merge_spec(ns, self_agent, list) == ns);
    } else {
        assert(list.push(a)[0] == list[0]);
        assert(list.push(a).skip(1) =~= list.skip(1).push(a));
        lemma_merge_snoc(insert_spec(ns, self_agent, list[0]), self_agent, list.skip(1), a);
        assert(merge_spec(ns, self_agent, list.push(a)) == merge_spec(
            insert_spec(ns, self_agent, list[0]),
            self_agent,
            list.skip(1).push(a),
        ));
    }
}

// ---------------------------------------------------------------------------
// Greedy choice of the nearest neighbor.
// ---------------------------------------------------------------------------

/// Distance from an agent's location to `loc`.
pub open spec fn dist_to<L: Location>(a: SwarmAgent<L>, loc: L) -> nat {
    a.loc.dist_spec(loc)
}

/// Index of the table entry nearest to `loc`; ties go to the earliest
/// entry.
pub open spec fn closest_idx<L: Location>(ns: Seq<SwarmAgent<L>>, loc: L) -> int
    decreases ns.len(),
{
    if ns.len() <= 1 {
        0
    } else {
        let r = closest_idx(ns.drop_last(), loc);
        if dist_to(ns.last(), loc) < dist_to(ns[r], loc) {
            ns.len() - 1
        } else {
            r
        }
    }
}

/// The nearest index is in range, minimizes the distance, and is the first
/// index to do so.
pub proof fn lemma_closest_idx<L: Location>(ns: Seq<SwarmAgent<L>>, loc: L)
    requires
        ns.len() > 0,
    ensures
        0 <= closest_idx(ns, loc) < ns.len(),
        forall|j: int|
            0 <= j < ns.len() ==> dist_to(ns[closest_idx(ns, loc)], loc) <= #[trigger] dist_to(
                ns[j],
                loc,
            ),
        forall|j: int|
            0 <= j < closest_idx(ns, loc) ==> #[trigger] dist_to(ns[j], loc) > dist_to(
                ns[closest_idx(ns, loc)],
                loc,
            ),
    decreases ns.len(),
{
    if ns.len() > 1 {
        lemma_closest_idx(ns.drop_last(), loc);
        assert(forall|j: int| 0 <= j < ns.len() - 1 ==> ns.drop_last()[j] == ns[j]);
    }
}


// ---------------------------------------------------------------------------
// What each RPC does to a node, as mathematics.
// ---------------------------------------------------------------------------

/// The outcome sends `rpc`-shaped heartbeat to `dest`.
pub open spec fn is_hrtbt_to<L: Location>(out: Outbound<L>, agent: SwarmAgent<L>, dest: SwarmAddr) -> bool {
    &&& out.dest == dest
    &&& (out.rpc matches IronSwarmRPC::HRTBT(a) && a == agent)
}

/// HRTBT: a full node drops the probe silently; any other node answers
/// with its table plus itself and then inserts the sender.  After an
/// acceptance the table holds at most `MAX_NEIGHBORS` entries.
pub open spec fn hrtbt_effect<L: Location>(
    pre: SwarmNetwork<L>,
    post: SwarmNetwork<L>,
    agn: SwarmAgent<L>,
    r: DispatchOutcome<L>,
) -> bool {
    if pre.neighbors@.len() >= MAX_NEIGHBORS as int {
        &&& post.neighbors@ == pre.neighbors@
        &&& r is Quiet
    } else {
        &&& post.neighbors@ == insert_spec(pre.neighbors@, pre.local_agent, agn)
        &&& post.neighbors@.len() <= MAX_NEIGHBORS as int
        &&& (r matches DispatchOutcome::Send(out) && out.dest == agn.addr && (
        out.rpc matches IronSwarmRPC::HRTBTACK(ack) && ack@ == pre.neighbors@.push(
            pre.local_agent,
        )))
    }
}

/// HRTBTACK: the listed agents are assimilated in order; nothing leaves
/// the node.
pub open spec fn ack_effect<L: Location>(
    pre: SwarmNetwork<L>,
    post: SwarmNetwork<L>,
    list: Seq<SwarmAgent<L>>,
    r: DispatchOutcome<L>,
) -> bool {
    &&& post.neighbors@ == merge_spec(pre.neighbors@, pre.local_agent, list)
    &&& r is Quiet
}

/// JOIN: the joiner is accepted where the table is empty, or where the
/// node is strictly closer to the joiner than its nearest neighbor and has
/// room; otherwise the request is forwarded to that nearest neighbor.
/// After an acceptance the table holds at most `MAX_NEIGHBORS` entries.
pub open spec fn join_effect<L: Location>(
    pre: SwarmNetwork<L>,
    post: SwarmNetwork<L>,
    joiner: SwarmAgent<L>,
    r: DispatchOutcome<L>,
) -> bool {
    if pre.neighbors@.len() == 0 {
        &&& post.neighbors@ == insert_spec(pre.neighbors@, pre.local_agent, joiner)
        &&& r is Quiet
    } else {
        let c = pre.neighbors@[closest_idx(pre.neighbors@, joiner.loc)];
        if dist_to(pre.local_agent, joiner.loc) < dist_to(c, joiner.loc)
            && pre.neighbors@.len() < MAX_NEIGHBORS as int {
            &&& post.neighbors@ == insert_spec(pre.neighbors@, pre.local_agent, joiner)
            &&& post.neighbors@.len() <= MAX_NEIGHBORS as int
            &&& r is Quiet
        } else {
            &&& post.neighbors@ == pre.neighbors@
            &&& (r matches DispatchOutcome::Send(out) && out.dest == c.addr && (
            out.rpc matches IronSwarmRPC::JOIN(j) && j == joiner))
        }
    }
}

/// INFO: the node is the terminus — and the message goes up to the
/// controller — where its table is empty or it sits strictly closer to the
/// target than its nearest neighbor; otherwise the message is forwarded to
/// that neighbor.  The table never changes.
pub open spec fn info_effect<L: Location>(
    pre: SwarmNetwork<L>,
    post: SwarmNetwork<L>,
    loc: L,
    msg: SwarmMsg<L>,
    r: DispatchOutcome<L>,
) -> bool {
    &&& post.neighbors@ == pre.neighbors@
    &&& if pre.neighbors@.len() == 0 {
        r matches DispatchOutcome::Deliver(m) && m == msg
    } else {
        let c = pre.neighbors@[closest_idx(pre.neighbors@, loc)];
        if dist_to(pre.local_agent, loc) < dist_to(c, loc) {
            r matches DispatchOutcome::Deliver(m) && m == msg
        } else {
            r matches DispatchOutcome::Send(out) && out.dest == c.addr && (
            out.rpc matches IronSwarmRPC::INFO(l, m) && l == loc && m == msg)
        }
    }
}

/// BROADCAST: the message goes up to the controller and no further; the
/// table never changes.
pub open spec fn broadcast_effect<L: Location>(
    pre: SwarmNetwork<L>,
    post: SwarmNetwork<L>,
    msg: SwarmMsg<L>,
    r: DispatchOutcome<L>,
) -> bool {
    &&& post.neighbors@ == pre.neighbors@
    &&& (r matches DispatchOutcome::Deliver(m) && m == msg)
}

/// The local node: its own agent and its neighbor table.
///
/// The host owns the socket; the node only decides.  Every mutating
/// operation preserves [`SwarmNetwork::wf`].
pub struct SwarmNetwork<L> {
    pub local_agent: SwarmAgent<L>,
    pub neighbors: Vec<SwarmAgent<L>>,
}

impl<L: Location> SwarmNetwork<L> {
    /// The table invariant of this node.
    pub open spec fn wf(self) -> bool {
        table_wf(self.local_agent, self.neighbors@)
    }

    /// A node at `loc`, bound to `address`, with an empty table and a
    /// fresh random identity.
    pub fn new(loc: L, address: SwarmAddr) -> (r: SwarmNetwork<L>)
        ensures
            r.wf(),
            r.local_agent.loc == loc,
            r.local_agent.addr == address,
            r.neighbors@.len() == 0,
    {
        let agent = SwarmAgent::new(loc, address);
        SwarmNetwork { local_agent: agent, neighbors: Vec::new() }
    }

    /// The address this node's agent is bound to.
    pub fn address(&self) -> (r: SwarmAddr)
        ensures
            r == self.local_agent.addr,
    {
        self.local_agent.addr
    }

    /// The node's own agent.
    pub fn local_agent(&self) -> (r: &SwarmAgent<L>)
        ensures
            *r == self.local_agent,
    {
        &self.local_agent
    }

    /// The neighbor table, in insertion order.
    pub fn neighbors(&self) -> (r: &Vec<SwarmAgent<L>>)
        ensures
            r == &self.neighbors,
    {
        &self.neighbors
    }

    /// Moves the node; identity, address and table are untouched.
    pub fn update_location(&mut self, location: L)
        ensures
            final(self).local_agent.loc == location,
            final(self).local_agent.swarm_id == old(self).local_agent.swarm_id,
            final(self).local_agent.addr == old(self).local_agent.addr,
            final(self).neighbors@ == old(self).neighbors@,
            old(self).wf() ==> final(self).wf(),
    {
        self.local_agent.update_location(location);
    }

    /// Whether this node sits strictly closer to `loc` than `agn` does.
    pub fn self_loc_is_closer(&self, agn: &SwarmAgent<L>, loc: &L) -> (r: bool)
        ensures
            r == (dist_to(self.local_agent, *loc) < dist_to(*agn, *loc)),
    {
        let other_dist = agn.location().distance(loc);
        let self_dist = self.local_agent.location().distance(loc);
        self_dist < other_dist
    }

    /// The neighbor nearest to `loc`, or nothing where the table is empty;
    /// ties go to the earliest entry.
    pub fn find_closest_neighbor(&self, loc: &L) -> (r: Option<SwarmAgent<L>>)
        ensures
            (match r {
                Some(a) => {
                    &&& self.neighbors@.len() > 0
                    &&& a == self.neighbors@[closest_idx(self.neighbors@, *loc)]
                },
                None => self.neighbors@.len() == 0,
            }),
    {
        let ns = &self.neighbors;
        if ns.len() == 0 {
            return None;
        }
        let mut best: usize = 0;
        let mut best_dist: u64 = ns[0].location().distance(loc);
        let mut i: usize = 1;
        proof {
            assert(self.neighbors@.take(1).drop_last() =~= Seq::<SwarmAgent<L>>::empty());
            assert(self.neighbors@.take(1)[0] == self.neighbors@[0]);
        }
        while i < ns.len()
            invariant
                1 <= i <= ns@.len(),
                best < i,
                ns == &self.neighbors,
                best == closest_idx(self.neighbors@.take(i as int), *loc),
                best_dist == dist_to(self.neighbors@[best as int], *loc),
            decreases ns@.len() - i,
        {
            let d = ns[i].location().distance(loc);
            proof {
                let t = self.neighbors@.take(i + 1);
                assert(t.drop_last() =~= self.neighbors@.take(i as int));
                assert(t.last() == self.neighbors@[i as int]);
                assert(forall|j: int| 0 <= j <= i ==> t[j] == self.neighbors@[j]);
            }
            if d < best_dist {
                best = i;
                best_dist = d;
            }
            i += 1;
        }
        proof {
            assert(self.neighbors@.take(self.neighbors@.len() as int) =~= self.neighbors@);
        }
        Some(self.neighbors[best].dup())
    }

    /// Inserts an agent: a no-op where the agent is this node or its
    /// identifier is already present, an append otherwise.
    pub fn insert_neighbor(&mut self, agent: SwarmAgent<L>)
        ensures
            final(self).local_agent == old(self).local_agent,
            final(self).neighbors@ == insert_spec(
                old(self).neighbors@,
                old(self).local_agent,
                agent,
            ),
            old(self).wf() ==> final(self).wf(),
    {
        proof {
            if old(self).wf() {
                lemma_insert_wf(old(self).neighbors@, old(self).local_agent, agent);
            }
        }
        if agent.id() == self.local_agent.id() {
            return;
        }
        let mut k: usize = 0;
        while k < self.neighbors.len()
            invariant
                k <= self.neighbors@.len(),
                self == old(self),
                forall|t: int|
                    0 <= t < k ==> (#[trigger] self.neighbors@[t]).swarm_id@ != agent.swarm_id@,
            decreases self.neighbors@.len() - k,
        {
            if self.neighbors[k].id() == agent.id() {
                return;
            }
            k += 1;
        }
        assert(!table_has_id(self.neighbors@, agent.swarm_id@));
        self.neighbors.push(agent);
    }

    /// Assimilates a gossiped agent list, inserting each entry in input
    /// order; entries naming this node or an agent already known are
    /// dropped.
    pub fn merge_gossip(&mut self, list: Vec<SwarmAgent<L>>)
        ensures
            final(self).local_agent == old(self).local_agent,
            final(self).neighbors@ == merge_spec(
                old(self).neighbors@,
                old(self).local_agent,
                list@,
            ),
            old(self).wf() ==> final(self).wf(),
    {
        let ghost pre_ns = old(self).neighbors@;
        let ghost pre_sa = old(self).local_agent;
        let mut k: usize = 0;
        proof {
            assert(list@.take(0) =~= Seq::<SwarmAgent<L>>::empty());
        }
        while k < list.len()
            invariant
                k <= list@.len(),
                self.local_agent == pre_sa,
                self.neighbors@ == merge_spec(pre_ns, pre_sa, list@.take(k as int)),
            decreases list@.len() - k,
        {
            let a = list[k].dup();
            proof {
                assert(list@.take(k as int).push(list@[k as int]) =~= list@.take(k + 1));
                lemma_merge_snoc(pre_ns, pre_sa, list@.take(k as int), list@[k as int]);
            }
            self.insert_neighbor(a);
            k += 1;
        }
        proof {
            assert(list@.take(list@.len() as int) =~= list@);
            if old(self).wf() {
                lemma_merge_wf(pre_ns, pre_sa, list@);
            }
        }
    }

    /// Answers one heartbeat probe, per [`hrtbt_effect`]: a full table
    /// drops it silently; otherwise the answer carries this node's table
    /// plus this node, and the sender is inserted afterwards.
    pub fn respond_to_heartbeat(&mut self, agn: SwarmAgent<L>) -> (r: DispatchOutcome<L>)
        requires
            old(self).wf(),
        ensures
            final(self).wf(),
            final(self).local_agent == old(self).local_agent,
            hrtbt_effect(*old(self), *final(self), agn, r),
    {
        if self.neighbors.len() >= MAX_NEIGHBORS as usize {
            return DispatchOutcome::Quiet;
        }
        let ghost pre = *old(self);
        let mut ack: Vec<SwarmAgent<L>> = Vec::new();
        let mut k: usize = 0;
        proof {
            assert(self.neighbors@.take(0) =~= Seq::<SwarmAgent<L>>::empty());
        }
        while k < self.neighbors.len()
            invariant
                k <= self.neighbors@.len(),
                *self == pre,
                ack@ == self.neighbors@.take(k as int),
            decreases self.neighbors@.len() - k,
        {
            ack.push(self.neighbors[k].dup());
            proof {
                assert(self.neighbors@.take(k as int).push(self.neighbors@[k as int])
                    =~= self.neighbors@.take(k + 1));
            }
            k += 1;
        }
        proof {
            assert(self.neighbors@.take(self.neighbors@.len() as int) =~= self.neighbors@);
        }
        ack.push(self.local_agent.dup());
        let out = Outbound { dest: agn.addr, rpc: IronSwarmRPC::HRTBTACK(ack) };
        self.insert_neighbor(agn);
        DispatchOutcome::Send(out)
    }

    /// Routes one join request, per [`join_effect`]: accept into an empty
    /// table; accept where this node is strictly closest and has room;
    /// otherwise forward to the nearest neighbor.
    pub fn route_join_request(&mut self, join_agn: SwarmAgent<L>) -> (r: DispatchOutcome<L>)
        requires
            old(self).wf(),
        ensures
            final(self).wf(),
            final(self).local_agent == old(self).local_agent,
            join_effect(*old(self), *final(self), join_agn, r),
    {
        proof {
            if self.neighbors@.len() > 0 {
                lemma_closest_idx(self.neighbors@, join_agn.loc);
            }
        }
        let closest_agent = self.find_closest_neighbor(join_agn.location());
        match closest_agent {
            Some(send_agn) => {
                if !self.self_loc_is_closer(&send_agn, join_agn.location()) || self.neighbors.len()
                    >= MAX_NEIGHBORS as usize {
                    DispatchOutcome::Send(
                        Outbound { dest: send_agn.addr, rpc: IronSwarmRPC::JOIN(join_agn) },
                    )
                } else {
                    self.insert_neighbor(join_agn);
                    DispatchOutcome::Quiet
                }
            },
            None => {
                self.insert_neighbor(join_agn);
                DispatchOutcome::Quiet
            },
        }
    }

    /// Routes one message toward `loc`, per [`info_effect`]: deliver
    /// upward where this node is the best-known terminus, else forward to
    /// the nearest neighbor.  The table never changes.
    pub fn route_info_msg(&self, loc: L, msg: SwarmMsg<L>) -> (r: DispatchOutcome<L>)
        ensures
            info_effect(*self, *self, loc, msg, r),
    {
        proof {
            if self.neighbors@.len() > 0 {
                lemma_closest_idx(self.neighbors@, loc);
            }
        }
        let next_agent = self.find_closest_neighbor(&loc);
        match next_agent {
            Some(agn) => {
                if self.self_loc_is_closer(&agn, &loc) {
                    DispatchOutcome::Deliver(msg)
                } else {
                    DispatchOutcome::Send(
                        Outbound { dest: agn.addr, rpc: IronSwarmRPC::INFO(loc, msg) },
                    )
                }
            },
            None => DispatchOutcome::Deliver(msg),
        }
    }

    /// Handles one decoded RPC: the five effects of the dispatch state
    /// machine, one per variant.
    pub fn dispatch_rpc(&mut self, rpc: IronSwarmRPC<L>) -> (r: DispatchOutcome<L>)
        requires
            old(self).wf(),
        ensures
            final(self).wf(),
            final(self).local_agent == old(self).local_agent,
            (rpc matches IronSwarmRPC::HRTBT(agn) ==> hrtbt_effect(
                *old(self),
                *final(self),
                agn,
                r,
            )),
            (rpc matches IronSwarmRPC::HRTBTACK(list) ==> ack_effect(
                *old(self),
                *final(self),
                list@,
                r,
            )),
            (rpc matches IronSwarmRPC::JOIN(agn) ==> join_effect(
                *old(self),
                *final(self),
                agn,
                r,
            )),
            (rpc matches IronSwarmRPC::INFO(loc, msg) ==> info_effect(
                *old(self),
                *final(self),
                loc,
                msg,
                r,
            )),
            (rpc matches IronSwarmRPC::BROADCAST(msg) ==> broadcast_effect(
                *old(self),
                *final(self),
                msg,
                r,
            )),
    {
        match rpc {
            IronSwarmRPC::HRTBT(agn) => self.respond_to_heartbeat(agn),
            IronSwarmRPC::HRTBTACK(ack_vec) => {
                self.merge_gossip(ack_vec);
                DispatchOutcome::Quiet
            },
            IronSwarmRPC::JOIN(join_agn) => self.route_join_request(join_agn),
            IronSwarmRPC::INFO(loc, msg) => self.route_info_msg(loc, msg),
            IronSwarmRPC::BROADCAST(msg) => DispatchOutcome::Deliver(msg),
        }
    }

    /// An HRTBT datagram carrying `hrtbt`, for `dest`.
    pub fn send_heartbeat(&self, hrtbt: SwarmAgent<L>, dest: SwarmAddr) -> (out: Outbound<L>)
        ensures
            is_hrtbt_to(out, hrtbt, dest),
    {
        Outbound { dest, rpc: IronSwarmRPC::HRTBT(hrtbt) }
    }

    /// An HRTBTACK datagram carrying `neighbors`, for `dest`.
    pub fn send_heartbeat_ack(&self, neighbors: Vec<SwarmAgent<L>>, dest: SwarmAddr) -> (out:
        Outbound<L>)
        ensures
            out.dest == dest,
            (out.rpc matches IronSwarmRPC::HRTBTACK(v) && v == neighbors),
    {
        Outbound { dest, rpc: IronSwarmRPC::HRTBTACK(neighbors) }
    }

    /// An INFO datagram aimed at `loc` carrying `msg`, for `dest`.
    pub fn send_info(&self, loc: L, msg: SwarmMsg<L>, dest: SwarmAddr) -> (out: Outbound<L>)
        ensures
            out.dest == dest,
            (out.rpc matches IronSwarmRPC::INFO(l, m) && l == loc && m == msg),
    {
        Outbound { dest, rpc: IronSwarmRPC::INFO(loc, msg) }
    }

    /// A BROADCAST datagram carrying `msg`, for `dest`.
    pub fn send_broadcast(&self, msg: SwarmMsg<L>, dest: SwarmAddr) -> (out: Outbound<L>)
        ensures
            out.dest == dest,
            (out.rpc matches IronSwarmRPC::BROADCAST(m) && m == msg),
    {
        Outbound { dest, rpc: IronSwarmRPC::BROADCAST(msg) }
    }

    /// A JOIN datagram carrying `agn`, for `dest`.
    pub fn send_join(&self, agn: SwarmAgent<L>, dest: SwarmAddr) -> (out: Outbound<L>)
        ensures
            out.dest == dest,
            (out.rpc matches IronSwarmRPC::JOIN(a) && a == agn),
    {
        Outbound { dest, rpc: IronSwarmRPC::JOIN(agn) }
    }

    /// This node's own join request, aimed at a node of the overlay.
    pub fn join(&self, address: SwarmAddr) -> (out: Outbound<L>)
        ensures
            out.dest == address,
            (out.rpc matches IronSwarmRPC::JOIN(a) && a == self.local_agent),
    {
        let agn = self.local_agent.dup();
        self.send_join(agn, address)
    }

    /// One heartbeat probe for every neighbor, in table order, each
    /// carrying this node's agent.
    pub fn heartbeat(&self) -> (outs: Vec<Outbound<L>>)
        ensures
            outs@.len() == self.neighbors@.len(),
            forall|i: int|
                0 <= i < outs@.len() ==> is_hrtbt_to(
                    #[trigger] outs@[i],
                    self.local_agent,
                    self.neighbors@[i].addr,
                ),
    {
        let mut outs: Vec<Outbound<L>> = Vec::new();
        let mut k: usize = 0;
        while k < self.neighbors.len()
            invariant
                k <= self.neighbors@.len(),
                outs@.len() == k,
                forall|i: int|
                    0 <= i < k ==> is_hrtbt_to(
                        #[trigger] outs@[i],
                        self.local_agent,
                        self.neighbors@[i].addr,
                    ),
            decreases self.neighbors@.len() - k,
        {
            let agn = self.local_agent.dup();
            let out = self.send_heartbeat(agn, self.neighbors[k].addr);
            outs.push(out);
            k += 1;
        }
        outs
    }
}


// ---------------------------------------------------------------------------
// Laws of the routing machine.
// ---------------------------------------------------------------------------

/// INFO hop monotonicity: an INFO that is forwarded rather than delivered
/// goes to the neighbor nearest the target, which sits no farther from the
/// target than this node — and strictly nearer whenever the two distances
/// differ.  Two nodes equidistant from the target keep the non-strict
/// bound only.
pub proof fn lemma_info_hop_monotonic<L: Location>(
    pre: SwarmNetwork<L>,
    post: SwarmNetwork<L>,
    loc: L,
    msg: SwarmMsg<L>,
    r: DispatchOutcome<L>,
)
    requires
        info_effect(pre, post, loc, msg, r),
        r is Send,
    ensures
        pre.neighbors@.len() > 0,
        dist_to(pre.neighbors@[closest_idx(pre.neighbors@, loc)], loc) <= dist_to(
            pre.local_agent,
            loc,
        ),
        forall|j: int|
            0 <= j < pre.neighbors@.len() ==> dist_to(
                pre.neighbors@[closest_idx(pre.neighbors@, loc)],
                loc,
            ) <= #[trigger] dist_to(pre.neighbors@[j], loc),
        dist_to(pre.neighbors@[closest_idx(pre.neighbors@, loc)], loc) != dist_to(
            pre.local_agent,
            loc,
        ) ==> dist_to(pre.neighbors@[closest_idx(pre.neighbors@, loc)], loc) < dist_to(
            pre.local_agent,
            loc,
        ),
{
    lemma_closest_idx(pre.neighbors@, loc);
}

/// JOIN greedy placement: a node with a non-empty table accepts a joiner
/// only where it sits strictly nearer the joiner than every neighbor — the
/// strict local minimum of the distance on its neighborhood — and a node
/// that forwards while it still has room hands the request to a neighbor
/// no farther from the joiner than itself.
pub proof fn lemma_join_greedy<L: Location>(
    pre: SwarmNetwork<L>,
    post: SwarmNetwork<L>,
    joiner: SwarmAgent<L>,
    r: DispatchOutcome<L>,
)
    requires
        join_effect(pre, post, joiner, r),
        pre.neighbors@.len() > 0,
    ensures
        r is Quiet ==> forall|j: int|
            0 <= j < pre.neighbors@.len() ==> dist_to(pre.local_agent, joiner.loc)
                < #[trigger] dist_to(pre.neighbors@[j], joiner.loc),
        r is Quiet ==> pre.neighbors@.len() < MAX_NEIGHBORS as int,
        (r is Send && pre.neighbors@.len() < MAX_NEIGHBORS as int) ==> dist_to(
            pre.neighbors@[closest_idx(pre.neighbors@, joiner.loc)],
            joiner.loc,
        ) <= dist_to(pre.local_agent, joiner.loc),
{
    lemma_closest_idx(pre.neighbors@, joiner.loc);
}


/// One JOIN forwarding hop: the holder has neighbors and room to spare,
/// handling the request leaves its table unchanged and forwards it, and
/// the nearest neighbor it forwards to is the next holder.
pub open spec fn join_hop<L: Location>(
    pre: SwarmNetwork<L>,
    nxt: SwarmNetwork<L>,
    joiner: SwarmAgent<L>,
) -> bool {
    &&& 0 < pre.neighbors@.len() < MAX_NEIGHBORS as int
    &&& (exists|out: Outbound<L>|
        join_effect(pre, pre, joiner, DispatchOutcome::Send(out)))
    &&& nxt.local_agent == pre.neighbors@[closest_idx(pre.neighbors@, joiner.loc)]
}

/// Along a chain of JOIN forwards between nodes with room, the distance
/// from the holder to the joiner never grows.
pub proof fn lemma_join_chain_monotonic<L: Location>(
    holders: Seq<SwarmNetwork<L>>,
    joiner: SwarmAgent<L>,
)
    requires
        forall|k: int|
            0 <= k < holders.len() - 1 ==> #[trigger] join_hop(
                holders[k],
                holders[k + 1],
                joiner,
            ),
    ensures
        forall|k: int|
            0 <= k < holders.len() - 1 ==> #[trigger] dist_to(
                holders[k + 1].local_agent,
                joiner.loc,
            ) <= dist_to(holders[k].local_agent, joiner.loc),
{
    assert forall|k: int| 0 <= k < holders.len() - 1 implies #[trigger] dist_to(
        holders[k + 1].local_agent,
        joiner.loc,
    ) <= dist_to(holders[k].local_agent, joiner.loc) by {
        assert(join_hop(holders[k], holders[k + 1], joiner));
        let pre = holders[k];
        let out = choose|out: Outbound<L>|
            join_effect(pre, pre, joiner, DispatchOutcome::Send(out));
        assert(join_effect(pre, pre, joiner, DispatchOutcome::Send(out)));
    }
}

/// Greedy JOIN routing terminates: where each hop's distance moreover
/// differs from the last — as with pairwise distinct distances to the
/// joiner — the distance strictly decreases, so a chain of forwards can be
/// no longer than the first holder's distance allows.
pub proof fn lemma_join_chain_terminates<L: Location>(
    holders: Seq<SwarmNetwork<L>>,
    joiner: SwarmAgent<L>,
)
    requires
        holders.len() > 0,
        forall|k: int|
            0 <= k < holders.len() - 1 ==> #[trigger] join_hop(
                holders[k],
                holders[k + 1],
                joiner,
            ),
        forall|k: int|
            0 <= k < holders.len() - 1 ==> #[trigger] dist_to(
                holders[k + 1].local_agent,
                joiner.loc,
            ) != dist_to(holders[k].local_agent, joiner.loc),
    ensures
        holders.len() <= dist_to(holders[0].local_agent, joiner.loc) + 1,
    decreases holders.len(),
{
    if holders.len() >= 2 {
        lemma_join_chain_monotonic(holders, joiner);
        assert(dist_to(holders[0int + 1].local_agent, joiner.loc) <= dist_to(
            holders[0].local_agent,
            joiner.loc,
        ));
        assert(dist_to(holders[0int + 1].local_agent, joiner.loc) != dist_to(
            holders[0].local_agent,
            joiner.loc,
        ));
        assert(dist_to(holders[1].local_agent, joiner.loc) < dist_to(
            holders[0].local_agent,
            joiner.loc,
        ));
        let rest = holders.skip(1);
        assert(forall|k: int| 0 <= k < rest.len() ==> rest[k] == holders[k + 1]);
        assert(forall|k: int|
            0 <= k < rest.len() - 1 ==> #[trigger] join_hop(rest[k], rest[k + 1], joiner));
        assert(forall|k: int|
            0 <= k < rest.len() - 1 ==> #[trigger] dist_to(rest[k + 1].local_agent, joiner.loc)
                != dist_to(rest[k].local_agent, joiner.loc));
        lemma_join_chain_terminates(rest, joiner);
    }
}

} // verus!
