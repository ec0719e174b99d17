//! Events, messages and the controller that applies delivered messages to
//! the host's reactor.

use vstd::prelude::*;
use crate::agent::{AgentV, SwarmAgent};
use crate::artifact::{ArtifactV, SwarmArtifact};
use crate::{Location, ReactToSwarm};

verus! {

/// One of the five semantic notifications carried inside a message.
#[derive(Clone, Debug, PartialEq, Eq)]
pub enum SwarmEvent<L> {
    /// An artifact was observed.
    Artifact(SwarmArtifact<L>),
    /// A previously observed artifact is gone.
    ArtifactGone(SwarmArtifact<L>),
    /// A location the swarm should stay away from.
    AvoidLocation(L),
    /// A location the swarm should converge on.
    Converge(L),
    /// An agent reported as malicious.
    MaliciousAgent(SwarmAgent<L>),
}

/// The mathematical value of a [`SwarmEvent`].
pub enum EventV<L> {
    Artifact(ArtifactV<L>),
    ArtifactGone(ArtifactV<L>),
    AvoidLocation(L),
    Converge(L),
    MaliciousAgent(AgentV<L>),
}

impl<L> EventV<L> {
    /// Identities carried inside the event are 20 bytes.
    pub open spec fn wf(self) -> bool {
        match self {
            EventV::Artifact(a) => a.wf(),
            EventV::ArtifactGone(a) => a.wf(),
            EventV::AvoidLocation(_) => true,
            EventV::Converge(_) => true,
            EventV::MaliciousAgent(a) => a.wf(),
        }
    }
}

impl<L> View for SwarmEvent<L> {
    type V = EventV<L>;

    open spec fn view(&self) -> EventV<L> {
        match self {
            SwarmEvent::Artifact(a) => EventV::Artifact(a@),
            SwarmEvent::ArtifactGone(a) => EventV::ArtifactGone(a@),
            SwarmEvent::AvoidLocation(l) => EventV::AvoidLocation(*l),
            SwarmEvent::Converge(l) => EventV::Converge(*l),
            SwarmEvent::MaliciousAgent(a) => EventV::MaliciousAgent(a@),
        }
    }
}

/// An event together with the agent that originated it.
///
/// `from_agent` identifies the event's originator, not the relaying hop.
#[derive(Clone, Debug, PartialEq, Eq)]
pub struct SwarmMsg<L> {
    pub from_agent: SwarmAgent<L>,
    pub event: SwarmEvent<L>,
}

/// The mathematical value of a [`SwarmMsg`].
pub struct MsgV<L> {
    pub from: AgentV<L>,
    pub event: EventV<L>,
}

impl<L> MsgV<L> {
    /// Identities carried inside the message are 20 bytes.
    pub open spec fn wf(self) -> bool {
        self.from.wf() && self.event.wf()
    }
}

impl<L> View for SwarmMsg<L> {
    type V = MsgV<L>;

    open spec fn view(&self) -> MsgV<L> {
        MsgV { from: self.from_agent@, event: self.event@ }
    }
}

impl<L: Location> SwarmEvent<L> {
    /// An equal copy of this event.
    pub fn dup(&self) -> (r: SwarmEvent<L>)
        ensures
            r == *self,
    {
        match self {
            SwarmEvent::Artifact(a) => SwarmEvent::Artifact(a.dup()),
            SwarmEvent::ArtifactGone(a) => SwarmEvent::ArtifactGone(a.dup()),
            SwarmEvent::AvoidLocation(l) => SwarmEvent::AvoidLocation(l.dup()),
            SwarmEvent::Converge(l) => SwarmEvent::Converge(l.dup()),
            SwarmEvent::MaliciousAgent(a) => SwarmEvent::MaliciousAgent(a.dup()),
        }
    }
}

impl<L: Location> SwarmMsg<L> {
    /// A message reporting an observed artifact.
    pub fn new_artifact_msg(agent: SwarmAgent<L>, art: SwarmArtifact<L>) -> (r: SwarmMsg<L>)
        ensures
            r.from_agent == agent,
            r.event == SwarmEvent::Artifact(art),
    {
        SwarmMsg { from_agent: agent, event: SwarmEvent::Artifact(art) }
    }

    /// A message reporting a vanished artifact.
    pub fn new_artifact_gone_msg(agent: SwarmAgent<L>, art: SwarmArtifact<L>) -> (r: SwarmMsg<
        L,
    >)
        ensures
            r.from_agent == agent,
            r.event == SwarmEvent::ArtifactGone(art),
    {
        SwarmMsg { from_agent: agent, event: SwarmEvent::ArtifactGone(art) }
    }

    /// A message asking the swarm to avoid `loc`.
    pub fn new_avoid_loc_msg(agent: SwarmAgent<L>, loc: L) -> (r: SwarmMsg<L>)
        ensures
            r.from_agent == agent,
            r.event == SwarmEvent::AvoidLocation(loc),
    {
        SwarmMsg { from_agent: agent, event: SwarmEvent::AvoidLocation(loc) }
    }

    /// A message asking the swarm to converge on `loc`.
    pub fn new_converge_msg(agent: SwarmAgent<L>, loc: L) -> (r: SwarmMsg<L>)
        ensures
            r.from_agent == agent,
            r.event == SwarmEvent::Converge(loc),
    {
        SwarmMsg { from_agent: agent, event: SwarmEvent::Converge(loc) }
    }

    /// A message reporting a malicious agent.
    pub fn new_malicious_agent_msg(agent: SwarmAgent<L>, mal: SwarmAgent<L>) -> (r: SwarmMsg<
        L,
    >)
        ensures
            r.from_agent == agent,
            r.event == SwarmEvent::MaliciousAgent(mal),
    {
        SwarmMsg { from_agent: agent, event: SwarmEvent::MaliciousAgent(mal) }
    }

    /// The event carried by this message.
    pub fn event(&self) -> (r: &SwarmEvent<L>)
        ensures
            *r == self.event,
    {
        &self.event
    }

    /// The agent that originated this message.
    pub fn from_agent(&self) -> (r: &SwarmAgent<L>)
        ensures
            *r == self.from_agent,
    {
        &self.from_agent
    }

    /// An equal copy of this message.
    pub fn dup(&self) -> (r: SwarmMsg<L>)
        ensures
            r == *self,
    {
        SwarmMsg { from_agent: self.from_agent.dup(), event: self.event.dup() }
    }
}

/// Owns the host's reactor and applies messages to it.
///
/// The five origination calls each construct a message with the given
/// originator and the matching event and hand it to the reactor exactly
/// once.
pub struct SwarmController<T, L> {
    pub actor: T,
    pub loc_marker: core::marker::PhantomData<L>,
}

impl<T: ReactToSwarm<L>, L: Location> SwarmController<T, L> {
    /// A controller around the given reactor.
    pub fn new(act: T) -> (r: SwarmController<T, L>)
        ensures
            r.actor == act,
    {
        SwarmController { actor: act, loc_marker: core::marker::PhantomData }
    }

    /// Replaces the reactor; the previous one is dropped.
    pub fn set_reactor(&mut self, act: T)
        ensures
            final(self).actor == act,
    {
        self.actor = act;
    }

    /// Hands one delivered message to the reactor.
    pub fn send_msg(&mut self, msg: &SwarmMsg<L>)
        ensures
            final(self).actor.seen() == old(self).actor.seen().push(*msg),
    {
        self.actor.react(msg);
    }

    /// Reports an observed artifact to the reactor.
    pub fn send_artifact(&mut self, agent: SwarmAgent<L>, art: SwarmArtifact<L>)
        ensures
            final(self).actor.seen() == old(self).actor.seen().push(
                SwarmMsg { from_agent: agent, event: SwarmEvent::Artifact(art) },
            ),
    {
        let msg: SwarmMsg<L> = SwarmMsg::new_artifact_msg(agent, art);
        self.send_msg(&msg);
    }

    /// Reports a vanished artifact to the reactor.
    pub fn send_artifact_gone(&mut self, agent: SwarmAgent<L>, art: SwarmArtifact<L>)
        ensures
            final(self).actor.seen() == old(self).actor.seen().push(
                SwarmMsg { from_agent: agent, event: SwarmEvent::ArtifactGone(art) },
            ),
    {
        let msg: SwarmMsg<L> = SwarmMsg::new_artifact_gone_msg(agent, art);
        self.send_msg(&msg);
    }

    /// Asks the reactor to avoid a location.
    pub fn send_avoid_location(&mut self, agent: SwarmAgent<L>, loc: L)
        ensures
            final(self).actor.seen() == old(self).actor.seen().push(
                SwarmMsg { from_agent: agent, event: SwarmEvent::AvoidLocation(loc) },
            ),
    {
        let msg: SwarmMsg<L> = SwarmMsg::new_avoid_loc_msg(agent, loc);
        self.send_msg(&msg);
    }

    /// Asks the reactor to converge on a location.
    pub fn send_converge(&mut self, agent: SwarmAgent<L>, loc: L)
        ensures
            final(self).actor.seen() == old(self).actor.seen().push(
                SwarmMsg { from_agent: agent, event: SwarmEvent::Converge(loc) },
            ),
    {
        let msg: SwarmMsg<L> = SwarmMsg::new_converge_msg(agent, loc);
        self.send_msg(&msg);
    }

    /// Reports a malicious agent to the reactor.
    pub fn send_malicious_agent(&mut self, agent: SwarmAgent<L>, mal: SwarmAgent<L>)
        ensures
            final(self).actor.seen() == old(self).actor.seen().push(
                SwarmMsg { from_agent: agent, event: SwarmEvent::MaliciousAgent(mal) },
            ),
    {
        let msg: SwarmMsg<L> = SwarmMsg::new_malicious_agent_msg(agent, mal);
        self.send_msg(&msg);
    }
}

/// A reactor that stores every delivered message, oldest first.
///
/// It grounds the [`ReactToSwarm`] contract with a verified implementation
/// and gives hosts and tests a ready-made sink to inspect.
pub struct RecordingReactor<L> {
    pub log: Vec<SwarmMsg<L>>,
}

impl<L: Location> RecordingReactor<L> {
    /// A reactor with an empty log.
    pub fn new() -> (r: RecordingReactor<L>)
        ensures
            r.seen() == Seq::<SwarmMsg<L>>::empty(),
    {
        RecordingReactor { log: Vec::new() }
    }

    /// The stored messages, oldest first.
    pub fn log(&self) -> (r: &Vec<SwarmMsg<L>>)
        ensures
            r@ == self.seen(),
    {
        &self.log
    }
}

impl<L: Location> ReactToSwarm<L> for RecordingReactor<L> {
    open spec fn seen(&self) -> Seq<SwarmMsg<L>> {
        self.log@
    }

    fn react(&mut self, msg: &SwarmMsg<L>) {
        self.log.push(msg.dup());
    }
}

} // verus!
