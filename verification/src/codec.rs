//! Length-delimited framing of RPCs into and out of byte buffers.
//!
//! The wire layout is fixed-width and self-describing by variant tag; there
//! is no padding.  Multi-byte counts are little-endian; the UDP port is the
//! one big-endian field.  Every RPC travels wrapped in an outer [`Packet`]
//! record carrying it in a single field, so that later extensions (sequence
//! numbers, authenticators) can be added without touching inner layouts.

use vstd::prelude::*;
use crate::agent::{AgentV, SwarmAddr, SwarmAgent};
use crate::artifact::{ArtifactV, SwarmArtifact};
use crate::byteid::{ByteId, BYTE_ID_LEN};
use crate::network::{IronSwarmRPC, RpcV};
use crate::swarm::{EventV, MsgV, SwarmEvent, SwarmMsg};
use crate::Location;

verus! {

/// Wire tag of the HRTBT RPC.
pub const TAG_HRTBT: u8 = 1;

/// Wire tag of the HRTBTACK RPC.
pub const TAG_HRTBTACK: u8 = 2;

/// Wire tag of the JOIN RPC.
pub const TAG_JOIN: u8 = 3;

/// Wire tag of the INFO RPC.
pub const TAG_INFO: u8 = 4;

/// Wire tag of the BROADCAST RPC.
pub const TAG_BROADCAST: u8 = 5;

/// Wire tag of the Artifact event.
pub const ETAG_ARTIFACT: u8 = 1;

/// Wire tag of the ArtifactGone event.
pub const ETAG_ARTIFACT_GONE: u8 = 2;

/// Wire tag of the AvoidLocation event.
pub const ETAG_AVOID_LOCATION: u8 = 3;

/// Wire tag of the Converge event.
pub const ETAG_CONVERGE: u8 = 4;

/// Wire tag of the MaliciousAgent event.
pub const ETAG_MALICIOUS_AGENT: u8 = 5;

/// Form byte of an IPv4 address on the wire.
pub const ADDR_FORM_V4: u8 = 4;

/// Form byte reserved for IPv6 addresses; recognized and rejected.
pub const ADDR_FORM_V6: u8 = 6;

/// Upper bound, in bytes, on one encoded packet: one datagram carries one
/// packet, and staying under typical link MTUs avoids IP fragmentation.
pub const MAX_PACKET_SIZE: usize = 1024;

/// Everything that can go wrong between two cooperating nodes.
#[derive(Clone, Copy, Debug, PartialEq, Eq, Structural)]
pub enum SwarmError {
    /// Socket bind, send or receive failed in the host's transport.
    TransportFailure,
    /// An outgoing encoded RPC would exceed [`MAX_PACKET_SIZE`].
    OversizePacket,
    /// A malformed, truncated or unknown-tag datagram.
    DecodingFailure,
    /// The encoder failed on the in-memory buffer.
    EncodingFailure,
    /// A wire address carried the reserved IPv6 form, which the codec
    /// recognizes but does not support.
    UnsupportedAddressForm,
}

/// Result alias used throughout the library.
pub type SwarmResult<R> = Result<R, SwarmError>;

/// The outer record around every RPC on the wire.
///
/// It carries the body in a single field and adds no bytes of its own.
pub struct Packet<B> {
    pub body: B,
}

impl<B> Packet<B> {
    /// Wraps a body for sending.
    pub fn new(body: B) -> (r: Packet<B>)
        ensures
            r.body == body,
    {
        Packet { body }
    }

    /// Unwraps the carried body.
    pub fn inner(self) -> (r: B)
        ensures
            r == self.body,
    {
        self.body
    }
}

// ---------------------------------------------------------------------------
// The wire layout, as mathematics: one `enc` function per record gives its
// exact bytes, one `dec` function reads a record out of a byte sequence at a
// position and yields the value and the position just past it, and one
// `dec .. err` function names the error when `dec` yields nothing.
// ---------------------------------------------------------------------------

/// Bytes of an address: form byte, four octets, port big-endian.
pub open spec fn enc_addr(ad: SwarmAddr) -> Seq<u8> {
    seq![
        ADDR_FORM_V4,
        ad.a,
        ad.b,
        ad.c,
        ad.d,
        (ad.port / 256) as u8,
        (ad.port % 256) as u8,
    ]
}

/// Reads an address at `i`.
pub open spec fn dec_addr(s: Seq<u8>, i: int) -> Option<(SwarmAddr, int)> {
    if 0 <= i && i + 7 <= s.len() && s[i] == ADDR_FORM_V4 {
        Some(
            (
                SwarmAddr {
                    a: s[i + 1],
                    b: s[i + 2],
                    c: s[i + 3],
                    d: s[i + 4],
                    port: (s[i + 5] * 256 + s[i + 6]) as u16,
                },
                i + 7,
            ),
        )
    } else {
        None
    }
}

/// The error when no address can be read at `i`: the reserved IPv6 form is
/// reported as such, anything else as a plain decoding failure.
pub open spec fn dec_addr_err(s: Seq<u8>, i: int) -> SwarmError {
    if 0 <= i < s.len() && s[i] == ADDR_FORM_V6 {
        SwarmError::UnsupportedAddressForm
    } else {
        SwarmError::DecodingFailure
    }
}

/// Reads a 20-byte identifier at `i`.
pub open spec fn dec_id(s: Seq<u8>, i: int) -> Option<(Seq<u8>, int)> {
    if 0 <= i && i + BYTE_ID_LEN <= s.len() {
        Some((s.subrange(i, i + BYTE_ID_LEN), i + BYTE_ID_LEN))
    } else {
        None
    }
}

/// Bytes of an agent: identifier, location, address.
pub open spec fn enc_agent<L: Location>(v: AgentV<L>) -> Seq<u8> {
    v.id + v.loc.wire_spec() + enc_addr(v.addr)
}

/// Reads an agent at `i`.
pub open spec fn dec_agent<L: Location>(s: Seq<u8>, i: int) -> Option<(AgentV<L>, int)> {
    match dec_id(s, i) {
        Some((id, j)) => match L::read_spec(s, j) {
            Some((loc, k)) => match dec_addr(s, k) {
                Some((ad, m)) => Some((AgentV { id, loc, addr: ad }, m)),
                None => None,
            },
            None => None,
        },
        None => None,
    }
}

/// The error when no agent can be read at `i`.
pub open spec fn dec_agent_err<L: Location>(s: Seq<u8>, i: int) -> SwarmError {
    match dec_id(s, i) {
        Some((id, j)) => match L::read_spec(s, j) {
            Some((loc, k)) => dec_addr_err(s, k),
            None => SwarmError::DecodingFailure,
        },
        None => SwarmError::DecodingFailure,
    }
}

/// Bytes of an artifact: identifier, location.
pub open spec fn enc_artifact<L: Location>(v: ArtifactV<L>) -> Seq<u8> {
    v.id + v.loc.wire_spec()
}

/// Reads an artifact at `i`.
pub open spec fn dec_artifact<L: Location>(s: Seq<u8>, i: int) -> Option<(ArtifactV<L>, int)> {
    match dec_id(s, i) {
        Some((id, j)) => match L::read_spec(s, j) {
            Some((loc, k)) => Some((ArtifactV { id, loc }, k)),
            None => None,
        },
        None => None,
    }
}

/// Bytes of an event: event tag, then the tag's payload.
pub open spec fn enc_event<L: Location>(e: EventV<L>) -> Seq<u8> {
    match e {
        EventV::Artifact(a) => seq![ETAG_ARTIFACT] + enc_artifact(a),
        EventV::ArtifactGone(a) => seq![ETAG_ARTIFACT_GONE] + enc_artifact(a),
        EventV::AvoidLocation(l) => seq![ETAG_AVOID_LOCATION] + l.wire_spec(),
        EventV::Converge(l) => seq![ETAG_CONVERGE] + l.wire_spec(),
        EventV::MaliciousAgent(a) => seq![ETAG_MALICIOUS_AGENT] + enc_agent(a),
    }
}

/// Reads an event at `i`.
pub open spec fn dec_event<L: Location>(s: Seq<u8>, i: int) -> Option<(EventV<L>, int)> {
    if 0 <= i < s.len() {
        let t = s[i];
        if t == ETAG_ARTIFACT {
            match dec_artifact::<L>(s, i + 1) {
                Some((a, j)) => Some((EventV::Artifact(a), j)),
                None => None,
            }
        } else if t == ETAG_ARTIFACT_GONE {
            match dec_artifact::<L>(s, i + 1) {
                Some((a, j)) => Some((EventV::ArtifactGone(a), j)),
                None => None,
            }
        } else if t == ETAG_AVOID_LOCATION {
            match L::read_spec(s, i + 1) {
                Some((l, j)) => Some((EventV::AvoidLocation(l), j)),
                None => None,
            }
        } else if t == ETAG_CONVERGE {
            match L::read_spec(s, i + 1) {
                Some((l, j)) => Some((EventV::Converge(l), j)),
                None => None,
            }
        } else if t == ETAG_MALICIOUS_AGENT {
            match dec_agent::<L>(s, i + 1) {
                Some((a, j)) => Some((EventV::MaliciousAgent(a), j)),
                None => None,
            }
        } else {
            None
        }
    } else {
        None
    }
}

/// The error when no event can be read at `i`.
pub open spec fn dec_event_err<L: Location>(s: Seq<u8>, i: int) -> SwarmError {
    if 0 <= i < s.len() {
        let t = s[i];
        if t == ETAG_MALICIOUS_AGENT {
            dec_agent_err::<L>(s, i + 1)
        } else {
            SwarmError::DecodingFailure
        }
    } else {
        SwarmError::DecodingFailure
    }
}

/// Bytes of a message: originating agent, then the event.
pub open spec fn enc_msg<L: Location>(m: MsgV<L>) -> Seq<u8> {
    enc_agent(m.from) + enc_event(m.event)
}

/// Reads a message at `i`.
pub open spec fn dec_msg<L: Location>(s: Seq<u8>, i: int) -> Option<(MsgV<L>, int)> {
    match dec_agent::<L>(s, i) {
        Some((from, j)) => match dec_event::<L>(s, j) {
            Some((e, k)) => Some((MsgV { from, event: e }, k)),
            None => None,
        },
        None => None,
    }
}

/// The error when no message can be read at `i`.
pub open spec fn dec_msg_err<L: Location>(s: Seq<u8>, i: int) -> SwarmError {
    match dec_agent::<L>(s, i) {
        Some((from, j)) => dec_event_err::<L>(s, j),
        None => dec_agent_err::<L>(s, i),
    }
}

/// Bytes of a run of agents, in order.
pub open spec fn enc_agents<L: Location>(list: Seq<AgentV<L>>) -> Seq<u8>
    decreases list.len(),
{
    if list.len() == 0 {
        Seq::empty()
    } else {
        enc_agent(list[0]) + enc_agents(list.skip(1))
    }
}

/// Reads `count` consecutive agents at `i`.
pub open spec fn dec_agents<L: Location>(s: Seq<u8>, i: int, count: nat) -> Option<
    (Seq<AgentV<L>>, int),
>
    decreases count,
{
    if count == 0 {
        Some((Seq::empty(), i))
    } else {
        match dec_agent::<L>(s, i) {
            Some((a, j)) => match dec_agents::<L>(s, j, (count - 1) as nat) {
                Some((rest, k)) => Some((seq![a] + rest, k)),
                None => None,
            },
            None => None,
        }
    }
}

/// The error when `count` agents cannot be read at `i`.
pub open spec fn dec_agents_err<L: Location>(s: Seq<u8>, i: int, count: nat) -> SwarmError
    decreases count,
{
    if count == 0 {
        SwarmError::DecodingFailure
    } else {
        match dec_agent::<L>(s, i) {
            Some((a, j)) => dec_agents_err::<L>(s, j, (count - 1) as nat),
            None => dec_agent_err::<L>(s, i),
        }
    }
}

/// Bytes of an RPC: variant tag, then the variant's payload.  The agent run
/// of an HRTBTACK is preceded by its one-byte count.
pub open spec fn enc_rpc<L: Location>(r: RpcV<L>) -> Seq<u8> {
    match r {
        RpcV::Hrtbt(a) => seq![TAG_HRTBT] + enc_agent(a),
        RpcV::HrtbtAck(list) => seq![TAG_HRTBTACK, list.len() as u8] + enc_agents(list),
        RpcV::Join(a) => seq![TAG_JOIN] + enc_agent(a),
        RpcV::Info(l, m) => seq![TAG_INFO] + l.wire_spec() + enc_msg(m),
        RpcV::Broadcast(m) => seq![TAG_BROADCAST] + enc_msg(m),
    }
}

/// Reads an RPC at `i`.
pub open spec fn dec_rpc<L: Location>(s: Seq<u8>, i: int) -> Option<(RpcV<L>, int)> {
    if 0 <= i < s.len() {
        let t = s[i];
        if t == TAG_HRTBT {
            match dec_agent::<L>(s, i + 1) {
                Some((a, j)) => Some((RpcV::Hrtbt(a), j)),
                None => None,
            }
        } else if t == TAG_HRTBTACK {
            if i + 2 <= s.len() {
                match dec_agents::<L>(s, i + 2, s[i + 1] as nat) {
                    Some((list, j)) => Some((RpcV::HrtbtAck(list), j)),
                    None => None,
                }
            } else {
                None
            }
        } else if t == TAG_JOIN {
            match dec_agent::<L>(s, i + 1) {
                Some((a, j)) => Some((RpcV::Join(a), j)),
                None => None,
            }
        } else if t == TAG_INFO {
            match L::read_spec(s, i + 1) {
                Some((l, j)) => match dec_msg::<L>(s, j) {
                    Some((m, k)) => Some((RpcV::Info(l, m), k)),
                    None => None,
                },
                None => None,
            }
        } else if t == TAG_BROADCAST {
            match dec_msg::<L>(s, i + 1) {
                Some((m, j)) => Some((RpcV::Broadcast(m), j)),
                None => None,
            }
        } else {
            None
        }
    } else {
        None
    }
}

/// The error when no RPC can be read at `i`.
pub open spec fn dec_rpc_err<L: Location>(s: Seq<u8>, i: int) -> SwarmError {
    if 0 <= i < s.len() {
        let t = s[i];
        if t == TAG_HRTBT {
            dec_agent_err::<L>(s, i + 1)
        } else if t == TAG_HRTBTACK {
            if i + 2 <= s.len() {
                dec_agents_err::<L>(s, i + 2, s[i + 1] as nat)
            } else {
                SwarmError::DecodingFailure
            }
        } else if t == TAG_JOIN {
            dec_agent_err::<L>(s, i + 1)
        } else if t == TAG_INFO {
            match L::read_spec(s, i + 1) {
                Some((l, j)) => dec_msg_err::<L>(s, j),
                None => SwarmError::DecodingFailure,
            }
        } else if t == TAG_BROADCAST {
            dec_msg_err::<L>(s, i + 1)
        } else {
            SwarmError::DecodingFailure
        }
    } else {
        SwarmError::DecodingFailure
    }
}

// ---------------------------------------------------------------------------
// Facts about runs of agents.
// ---------------------------------------------------------------------------

/// Encoding a run of agents piece by piece is encoding the whole run.
pub proof fn lemma_enc_agents_concat<L: Location>(l1: Seq<AgentV<L>>, l2: Seq<AgentV<L>>)
    ensures
        enc_agents(l1 + l2) == enc_agents(l1) + enc_agents(l2),
    decreases l1.len(),
{
    if l1.len() == 0 {
        assert(l1 + l2 =~= l2);
        assert(enc_agents(l1) + enc_agents(l2) =~= enc_agents(l2));
    } else {
        assert((l1 + l2).len() > 0);
        assert((l1 + l2)[0] == l1[0]);
        assert((l1 + l2).skip(1) =~= l1.skip(1) + l2);
        lemma_enc_agents_concat(l1.skip(1), l2);
        assert(enc_agent(l1[0]) + (enc_agents(l1.skip(1)) + enc_agents(l2)) =~= (enc_agent(l1[0])
            + enc_agents(l1.skip(1))) + enc_agents(l2));
    }
}

/// A run of one agent encodes as that agent.
pub proof fn lemma_enc_agents_one<L: Location>(a: AgentV<L>)
    ensures
        enc_agents(seq![a]) == enc_agent(a),
{
    assert(seq![a].skip(1) =~= Seq::<AgentV<L>>::empty());
    assert(enc_agent(a) + enc_agents(Seq::<AgentV<L>>::empty()) =~= enc_agent(a));
}

/// Each well-formed agent takes at least 27 bytes on the wire: 20 bytes of
/// identifier, 7 of address, and whatever its location adds.
pub proof fn lemma_enc_agents_min_len<L: Location>(list: Seq<AgentV<L>>)
    requires
        forall|i: int| 0 <= i < list.len() ==> (#[trigger] list[i]).wf(),
    ensures
        enc_agents(list).len() >= 27 * list.len(),
    decreases list.len(),
{
    if list.len() > 0 {
        assert(forall|i: int|
            0 <= i < list.skip(1).len() ==> (#[trigger] list.skip(1)[i]).wf());
        lemma_enc_agents_min_len(list.skip(1));
    }
}

// ---------------------------------------------------------------------------
// Executable encoders.  Each appends a record's exact wire form to `out`.
// ---------------------------------------------------------------------------

/// Appends the wire form of an address.
pub fn encode_addr(ad: &SwarmAddr, out: &mut Vec<u8>)
    ensures
        final(out)@ == old(out)@ + enc_addr(*ad),
{
    out.push(ADDR_FORM_V4);
    out.push(ad.a);
    out.push(ad.b);
    out.push(ad.c);
    out.push(ad.d);
    out.push((ad.port / 256) as u8);
    out.push((ad.port % 256) as u8);
    proof {
        assert(out@ =~= old(out)@ + enc_addr(*ad));
    }
}

/// Appends the 20 raw bytes of an identifier.
pub fn encode_id(id: &ByteId, out: &mut Vec<u8>)
    ensures
        final(out)@ == old(out)@ + id@,
{
    let mut k: usize = 0;
    while k < BYTE_ID_LEN
        invariant
            k <= BYTE_ID_LEN,
            out@ == old(out)@ + id@.subrange(0, k as int),
        decreases BYTE_ID_LEN - k,
    {
        out.push(id.0[k]);
        proof {
            assert(old(out)@ + id@.subrange(0, k as int) + seq![id@[k as int]] =~= old(out)@
                + id@.subrange(0, k + 1));
        }
        k += 1;
    }
    proof {
        assert(id@.subrange(0, BYTE_ID_LEN as int) =~= id@);
    }
}

/// Appends the wire form of an agent.
pub fn encode_agent<L: Location>(a: &SwarmAgent<L>, out: &mut Vec<u8>)
    ensures
        final(out)@ == old(out)@ + enc_agent(a@),
{
    encode_id(&a.swarm_id, out);
    a.loc.write_wire(out);
    encode_addr(&a.addr, out);
    proof {
        assert(out@ =~= old(out)@ + enc_agent(a@));
    }
}

/// Appends the wire form of an artifact.
pub fn encode_artifact<L: Location>(a: &SwarmArtifact<L>, out: &mut Vec<u8>)
    ensures
        final(out)@ == old(out)@ + enc_artifact(a@),
{
    encode_id(&a.id, out);
    a.location.write_wire(out);
    proof {
        assert(out@ =~= old(out)@ + enc_artifact(a@));
    }
}

/// Appends the wire form of an event.
pub fn encode_event<L: Location>(e: &SwarmEvent<L>, out: &mut Vec<u8>)
    ensures
        final(out)@ == old(out)@ + enc_event(e@),
{
    match e {
        SwarmEvent::Artifact(a) => {
            out.push(ETAG_ARTIFACT);
            encode_artifact(a, out);
        },
        SwarmEvent::ArtifactGone(a) => {
            out.push(ETAG_ARTIFACT_GONE);
            encode_artifact(a, out);
        },
        SwarmEvent::AvoidLocation(l) => {
            out.push(ETAG_AVOID_LOCATION);
            l.write_wire(out);
        },
        SwarmEvent::Converge(l) => {
            out.push(ETAG_CONVERGE);
            l.write_wire(out);
        },
        SwarmEvent::MaliciousAgent(a) => {
            out.push(ETAG_MALICIOUS_AGENT);
            encode_agent(a, out);
        },
    }
    proof {
        assert(out@ =~= old(out)@ + enc_event(e@));
    }
}

/// Appends the wire form of a message.
pub fn encode_msg<L: Location>(m: &SwarmMsg<L>, out: &mut Vec<u8>)
    ensures
        final(out)@ == old(out)@ + enc_msg(m@),
{
    encode_agent(&m.from_agent, out);
    encode_event(&m.event, out);
    proof {
        assert(out@ =~= old(out)@ + enc_msg(m@));
    }
}



// ---------------------------------------------------------------------------
// Executable decoders.  Each reads one record out of `buf` at `pos` and
// returns the value and the position just past it, or exactly the error its
// `dec .. err` function names.
// ---------------------------------------------------------------------------

/// Reads an identifier at `pos`.
pub fn decode_id(buf: &[u8], pos: usize) -> (r: SwarmResult<(ByteId, usize)>)
    requires
        pos <= buf@.len(),
    ensures
        (match r {
            Ok((v, next)) => {
                &&& dec_id(buf@, pos as int) == Some((v@, next as int))
                &&& pos <= next <= buf@.len()
            },
            Err(e) => {
                &&& dec_id(buf@, pos as int) is None
                &&& e == SwarmError::DecodingFailure
            },
        }),
{
    if buf.len() - pos >= BYTE_ID_LEN {
        let mut data: [u8; BYTE_ID_LEN] = [0u8; BYTE_ID_LEN];
        let mut k: usize = 0;
        while k < BYTE_ID_LEN
            invariant
                k <= BYTE_ID_LEN,
                pos + BYTE_ID_LEN <= buf@.len(),
                buf@.len() <= usize::MAX,
                forall|t: int| 0 <= t < k ==> data@[t] == buf@[pos + t],
            decreases BYTE_ID_LEN - k,
        {
            data[k] = buf[pos + k];
            k += 1;
        }
        proof {
            assert(data@ =~= buf@.subrange(pos as int, pos + BYTE_ID_LEN));
        }
        Ok((ByteId(data), pos + BYTE_ID_LEN))
    } else {
        Err(SwarmError::DecodingFailure)
    }
}

/// Reads an address at `pos`.
pub fn decode_addr(buf: &[u8], pos: usize) -> (r: SwarmResult<(SwarmAddr, usize)>)
    requires
        pos <= buf@.len(),
    ensures
        (match r {
            Ok((v, next)) => {
                &&& dec_addr(buf@, pos as int) == Some((v, next as int))
                &&& pos <= next <= buf@.len()
            },
            Err(e) => {
                &&& dec_addr(buf@, pos as int) is None
                &&& e == dec_addr_err(buf@, pos as int)
            },
        }),
{
    if pos < buf.len() {
        let form = buf[pos];
        if form == ADDR_FORM_V6 {
            Err(SwarmError::UnsupportedAddressForm)
        } else if form != ADDR_FORM_V4 {
            Err(SwarmError::DecodingFailure)
        } else if buf.len() - pos >= 7 {
            let port = (buf[pos + 5] as u16) * 256 + (buf[pos + 6] as u16);
            Ok(
                (
                    SwarmAddr {
                        a: buf[pos + 1],
                        b: buf[pos + 2],
                        c: buf[pos + 3],
                        d: buf[pos + 4],
                        port,
                    },
                    pos + 7,
                ),
            )
        } else {
            Err(SwarmError::DecodingFailure)
        }
    } else {
        Err(SwarmError::DecodingFailure)
    }
}

/// Reads an agent at `pos`.
pub fn decode_agent<L: Location>(buf: &[u8], pos: usize) -> (r: SwarmResult<
    (SwarmAgent<L>, usize),
>)
    requires
        pos <= buf@.len(),
    ensures
        (match r {
            Ok((v, next)) => {
                &&& dec_agent::<L>(buf@, pos as int) == Some((v@, next as int))
                &&& pos <= next <= buf@.len()
            },
            Err(e) => {
                &&& dec_agent::<L>(buf@, pos as int) is None
                &&& e == dec_agent_err::<L>(buf@, pos as int)
            },
        }),
{
    let (id, j) = match decode_id(buf, pos) {
        Ok(x) => x,
        Err(e) => {
            return Err(e);
        },
    };
    let (loc, k) = match L::read_wire(buf, j) {
        Ok(x) => x,
        Err(e) => {
            return Err(e);
        },
    };
    let (ad, m) = match decode_addr(buf, k) {
        Ok(x) => x,
        Err(e) => {
            return Err(e);
        },
    };
    Ok((SwarmAgent { swarm_id: id, loc, addr: ad }, m))
}

/// Reads an artifact at `pos`.
pub fn decode_artifact<L: Location>(buf: &[u8], pos: usize) -> (r: SwarmResult<
    (SwarmArtifact<L>, usize),
>)
    requires
        pos <= buf@.len(),
    ensures
        (match r {
            Ok((v, next)) => {
                &&& dec_artifact::<L>(buf@, pos as int) == Some((v@, next as int))
                &&& pos <= next <= buf@.len()
            },
            Err(e) => {
                &&& dec_artifact::<L>(buf@, pos as int) is None
                &&& e == SwarmError::DecodingFailure
            },
        }),
{
    let (id, j) = match decode_id(buf, pos) {
        Ok(x) => x,
        Err(e) => {
            return Err(e);
        },
    };
    let (loc, k) = match L::read_wire(buf, j) {
        Ok(x) => x,
        Err(e) => {
            return Err(e);
        },
    };
    Ok((SwarmArtifact { id, location: loc }, k))
}

/// Reads an event at `pos`.
pub fn decode_event<L: Location>(buf: &[u8], pos: usize) -> (r: SwarmResult<
    (SwarmEvent<L>, usize),
>)
    requires
        pos <= buf@.len(),
    ensures
        (match r {
            Ok((v, next)) => {
                &&& dec_event::<L>(buf@, pos as int) == Some((v@, next as int))
                &&& pos <= next <= buf@.len()
            },
            Err(e) => {
                &&& dec_event::<L>(buf@, pos as int) is None
                &&& e == dec_event_err::<L>(buf@, pos as int)
            },
        }),
{
    if pos < buf.len() {
        let t = buf[pos];
        if t == ETAG_ARTIFACT {
            match decode_artifact::<L>(buf, pos + 1) {
                Ok((a, j)) => Ok((SwarmEvent::Artifact(a), j)),
                Err(e) => Err(e),
            }
        } else if t == ETAG_ARTIFACT_GONE {
            match decode_artifact::<L>(buf, pos + 1) {
                Ok((a, j)) => Ok((SwarmEvent::ArtifactGone(a), j)),
                Err(e) => Err(e),
            }
        } else if t == ETAG_AVOID_LOCATION {
            match L::read_wire(buf, pos + 1) {
                Ok((l, j)) => Ok((SwarmEvent::AvoidLocation(l), j)),
                Err(e) => Err(e),
            }
        } else if t == ETAG_CONVERGE {
            match L::read_wire(buf, pos + 1) {
                Ok((l, j)) => Ok((SwarmEvent::Converge(l), j)),
                Err(e) => Err(e),
            }
        } else if t == ETAG_MALICIOUS_AGENT {
            match decode_agent::<L>(buf, pos + 1) {
                Ok((a, j)) => Ok((SwarmEvent::MaliciousAgent(a), j)),
                Err(e) => Err(e),
            }
        } else {
            Err(SwarmError::DecodingFailure)
        }
    } else {
        Err(SwarmError::DecodingFailure)
    }
}

/// Reads a message at `pos`.
pub fn decode_msg<L: Location>(buf: &[u8], pos: usize) -> (r: SwarmResult<(SwarmMsg<L>, usize)>)
    requires
        pos <= buf@.len(),
    ensures
        (match r {
            Ok((v, next)) => {
                &&& dec_msg::<L>(buf@, pos as int) == Some((v@, next as int))
                &&& pos <= next <= buf@.len()
            },
            Err(e) => {
                &&& dec_msg::<L>(buf@, pos as int) is None
                &&& e == dec_msg_err::<L>(buf@, pos as int)
            },
        }),
{
    let (from, j) = match decode_agent::<L>(buf, pos) {
        Ok(x) => x,
        Err(e) => {
            return Err(e);
        },
    };
    let (event, k) = match decode_event::<L>(buf, j) {
        Ok(x) => x,
        Err(e) => {
            return Err(e);
        },
    };
    Ok((SwarmMsg { from_agent: from, event }, k))
}

/// Reading `k1 + k2` agents is reading `k1`, then `k2` more where the first
/// run stopped.
pub proof fn lemma_dec_agents_split<L: Location>(s: Seq<u8>, i: int, k1: nat, k2: nat)
    ensures
        dec_agents::<L>(s, i, k1 + k2) == (match dec_agents::<L>(s, i, k1) {
            Some((l1, j)) => match dec_agents::<L>(s, j, k2) {
                Some((l2, m)) => Some((l1 + l2, m)),
                None => None::<(Seq<AgentV<L>>, int)>,
            },
            None => None::<(Seq<AgentV<L>>, int)>,
        }),
        (dec_agents::<L>(s, i, k1) matches Some((l1, j)) ==> (dec_agents::<L>(s, j, k2) is None
            ==> dec_agents_err::<L>(s, i, (k1 + k2) as nat) == dec_agents_err::<L>(s, j, k2))),
        (dec_agents::<L>(s, i, k1) is None ==> dec_agents_err::<L>(s, i, (k1 + k2) as nat)
            == dec_agents_err::<L>(s, i, k1)),
    decreases k1,
{
    if k1 == 0 {
        assert(dec_agents::<L>(s, i, k2) matches Some((l2, m)) ==> Seq::<AgentV<L>>::empty() + l2
            =~= l2);
    } else {
        match dec_agent::<L>(s, i) {
            Some((a, j)) => {
                lemma_dec_agents_split::<L>(s, j, (k1 - 1) as nat, k2);
                assert((k1 - 1) as nat + k2 == (k1 + k2 - 1) as nat);
                match dec_agents::<L>(s, j, (k1 - 1) as nat) {
                    Some((l1r, jr)) => {
                        match dec_agents::<L>(s, jr, k2) {
                            Some((l2, m)) => {
                                assert(seq![a] + (l1r + l2) =~= (seq![a] + l1r) + l2);
                            },
                            None => {},
                        }
                    },
                    None => {},
                }
            },
            None => {},
        }
    }
}

/// Reads `count` consecutive agents at `pos`.
pub fn decode_agents<L: Location>(buf: &[u8], pos: usize, count: u8) -> (r: SwarmResult<
    (Vec<SwarmAgent<L>>, usize),
>)
    requires
        pos <= buf@.len(),
    ensures
        (match r {
            Ok((v, next)) => {
                &&& dec_agents::<L>(buf@, pos as int, count as nat) == Some(
                    (v@.map_values(|a: SwarmAgent<L>| a@), next as int),
                )
                &&& pos <= next <= buf@.len()
            },
            Err(e) => {
                &&& dec_agents::<L>(buf@, pos as int, count as nat) is None
                &&& e == dec_agents_err::<L>(buf@, pos as int, count as nat)
            },
        }),
{
    let mut acc: Vec<SwarmAgent<L>> = Vec::new();
    let mut cur: usize = pos;
    let mut k: usize = 0;
    while k < count as usize
        invariant
            k <= count as usize,
            pos <= cur <= buf@.len(),
            acc@.len() == k,
            dec_agents::<L>(buf@, pos as int, k as nat) == Some(
                (acc@.map_values(|a: SwarmAgent<L>| a@), cur as int),
            ),
        decreases count as usize - k,
    {
        let ghost pre_acc = acc@;
        let ghost pre_cur = cur;
        match decode_agent::<L>(buf, cur) {
            Ok((a, j)) => {
                proof {
                    lemma_dec_agents_split::<L>(buf@, pos as int, k as nat, 1nat);
                    assert(dec_agents::<L>(buf@, pre_cur as int, 1nat) == Some(
                        (seq![a@], j as int),
                    )) by {
                        assert(dec_agents::<L>(buf@, j as int, 0nat) == Some(
                            (Seq::<AgentV<L>>::empty(), j as int),
                        ));
                        assert(seq![a@] + Seq::<AgentV<L>>::empty() =~= seq![a@]);
                    }
                }
                acc.push(a);
                cur = j;
                proof {
                    assert(acc@.map_values(|x: SwarmAgent<L>| x@) =~= pre_acc.map_values(
                        |x: SwarmAgent<L>| x@,
                    ) + seq![a@]);
                }
                k += 1;
            },
            Err(e) => {
                proof {
                    lemma_dec_agents_split::<L>(
                        buf@,
                        pos as int,
                        k as nat,
                        (count - k) as nat,
                    );
                    assert(k as nat + (count - k) as nat == count as nat);
                }
                return Err(e);
            },
        }
    }
    Ok((acc, cur))
}


// ---------------------------------------------------------------------------
// Round-trip facts: whatever was encoded decodes back to the same value, and
// whatever decodes is the exact encoding of the bytes consumed.
// ---------------------------------------------------------------------------

/// Splits a known subrange equality into its left and right parts.
proof fn lemma_subrange_split(s: Seq<u8>, i: int, x: Seq<u8>, y: Seq<u8>)
    requires
        0 <= i,
        i + x.len() + y.len() <= s.len(),
        s.subrange(i, i + x.len() + y.len()) == x + y,
    ensures
        s.subrange(i, i + x.len() as int) == x,
        s.subrange(i + x.len() as int, i + x.len() + y.len()) == y,
{
    let n1 = x.len() as int;
    let n2 = y.len() as int;
    assert(s.subrange(i, i + n1) =~= x);
    assert forall|t: int| 0 <= t < n2 implies s.subrange(i + n1, i + n1 + n2)[t] == y[t] by {
        assert(s.subrange(i + n1, i + n1 + n2)[t] == s[i + n1 + t]);
        assert(s.subrange(i, i + n1 + n2)[n1 + t] == s[i + n1 + t]);
        assert(s.subrange(i, i + n1 + n2)[n1 + t] == (x + y)[n1 + t]);
        assert((x + y)[n1 + t] == y[t]);
    }
    assert(s.subrange(i + n1, i + n1 + n2) =~= y);
}

/// Joins two adjacent subranges.
proof fn lemma_subrange_join(s: Seq<u8>, i: int, j: int, k: int)
    requires
        0 <= i <= j <= k <= s.len(),
    ensures
        s.subrange(i, k) == s.subrange(i, j) + s.subrange(j, k),
{
    assert(s.subrange(i, k) =~= s.subrange(i, j) + s.subrange(j, k));
}

/// An encoded address decodes to the address it came from.
proof fn lemma_enc_dec_addr(ad: SwarmAddr, s: Seq<u8>, i: int)
    requires
        0 <= i,
        i + 7 <= s.len(),
        s.subrange(i, i + 7) == enc_addr(ad),
    ensures
        dec_addr(s, i) == Some((ad, i + 7)),
{
    assert(s[i] == enc_addr(ad)[0]);
    assert(s[i + 1] == enc_addr(ad)[1]);
    assert(s[i + 2] == enc_addr(ad)[2]);
    assert(s[i + 3] == enc_addr(ad)[3]);
    assert(s[i + 4] == enc_addr(ad)[4]);
    assert(s[i + 5] == enc_addr(ad)[5]);
    assert(s[i + 6] == enc_addr(ad)[6]);
    assert(ad.port / 256 < 256 && ad.port % 256 < 256);
    assert((((ad.port / 256) as u8) * 256 + ((ad.port % 256) as u8)) as u16 == ad.port);
}

/// A decoded address re-encodes to the bytes consumed.
proof fn lemma_dec_enc_addr(s: Seq<u8>, i: int)
    ensures
        (dec_addr(s, i) matches Some((v, n)) ==> {
            &&& i + 7 == n <= s.len()
            &&& enc_addr(v) == s.subrange(i, n)
        }),
{
    if dec_addr(s, i) is Some {
        let (v, n) = dec_addr(s, i)->Some_0;
        assert(v.port == (s[i + 5] * 256 + s[i + 6]) as u16);
        assert(s[i + 5] * 256 + s[i + 6] < 65536);
        assert(v.port / 256 == s[i + 5] && v.port % 256 == s[i + 6]);
        assert(enc_addr(v) =~= s.subrange(i, n));
    }
}

/// An encoded agent decodes to the agent it came from.
proof fn lemma_enc_dec_agent<L: Location>(v: AgentV<L>, s: Seq<u8>, i: int)
    requires
        v.wf(),
        0 <= i,
        i + enc_agent(v).len() <= s.len(),
        s.subrange(i, i + enc_agent(v).len() as int) == enc_agent(v),
    ensures
        dec_agent::<L>(s, i) == Some((v, i + enc_agent(v).len() as int)),
{
    let w = v.loc.wire_spec();
    let n = enc_agent(v).len() as int;
    assert(enc_agent(v) == (v.id + w) + enc_addr(v.addr));
    lemma_subrange_split(s, i, v.id + w, enc_addr(v.addr));
    lemma_subrange_split(s, i, v.id, w);
    assert(dec_id(s, i) == Some((v.id, i + 20)));
    v.loc.lemma_read_write(s, i + 20);
    lemma_enc_dec_addr(v.addr, s, i + 20 + w.len() as int);
    assert(dec_agent::<L>(s, i) == Some((AgentV { id: v.id, loc: v.loc, addr: v.addr }, i + n)));
}

/// A decoded agent is well formed and re-encodes to the bytes consumed.
proof fn lemma_dec_enc_agent<L: Location>(s: Seq<u8>, i: int)
    requires
        0 <= i <= s.len(),
    ensures
        (dec_agent::<L>(s, i) matches Some((v, n)) ==> {
            &&& i <= n <= s.len()
            &&& v.wf()
            &&& enc_agent(v) == s.subrange(i, n)
        }),
{
    if dec_agent::<L>(s, i) is Some {
        let (id, j) = dec_id(s, i)->Some_0;
        L::lemma_write_read(s, j);
        let (loc, k) = L::read_spec(s, j)->Some_0;
        lemma_dec_enc_addr(s, k);
        let (ad, n) = dec_addr(s, k)->Some_0;
        lemma_subrange_join(s, i, j, k);
        lemma_subrange_join(s, i, k, n);
    }
}

/// An encoded artifact decodes to the artifact it came from.
proof fn lemma_enc_dec_artifact<L: Location>(v: ArtifactV<L>, s: Seq<u8>, i: int)
    requires
        v.wf(),
        0 <= i,
        i + enc_artifact(v).len() <= s.len(),
        s.subrange(i, i + enc_artifact(v).len() as int) == enc_artifact(v),
    ensures
        dec_artifact::<L>(s, i) == Some((v, i + enc_artifact(v).len() as int)),
{
    let w = v.loc.wire_spec();
    lemma_subrange_split(s, i, v.id, w);
    assert(dec_id(s, i) == Some((v.id, i + 20)));
    v.loc.lemma_read_write(s, i + 20);
    assert(dec_artifact::<L>(s, i) == Some(
        (ArtifactV { id: v.id, loc: v.loc }, i + enc_artifact(v).len() as int),
    ));
}

/// A decoded artifact is well formed and re-encodes to the bytes consumed.
proof fn lemma_dec_enc_artifact<L: Location>(s: Seq<u8>, i: int)
    requires
        0 <= i <= s.len(),
    ensures
        (dec_artifact::<L>(s, i) matches Some((v, n)) ==> {
            &&& i <= n <= s.len()
            &&& v.wf()
            &&& enc_artifact(v) == s.subrange(i, n)
        }),
{
    if dec_artifact::<L>(s, i) is Some {
        let (id, j) = dec_id(s, i)->Some_0;
        L::lemma_write_read(s, j);
        let (loc, n) = L::read_spec(s, j)->Some_0;
        lemma_subrange_join(s, i, j, n);
    }
}

/// An encoded event decodes to the event it came from.
proof fn lemma_enc_dec_event<L: Location>(e: EventV<L>, s: Seq<u8>, i: int)
    requires
        e.wf(),
        0 <= i,
        i + enc_event(e).len() <= s.len(),
        s.subrange(i, i + enc_event(e).len() as int) == enc_event(e),
    ensures
        dec_event::<L>(s, i) == Some((e, i + enc_event(e).len() as int)),
{
    let n = enc_event(e).len() as int;
    assert(s[i] == enc_event(e)[0]);
    match e {
        EventV::Artifact(a) => {
            lemma_subrange_split(s, i, seq![ETAG_ARTIFACT], enc_artifact(a));
            lemma_enc_dec_artifact(a, s, i + 1);
        },
        EventV::ArtifactGone(a) => {
            lemma_subrange_split(s, i, seq![ETAG_ARTIFACT_GONE], enc_artifact(a));
            lemma_enc_dec_artifact(a, s, i + 1);
        },
        EventV::AvoidLocation(l) => {
            lemma_subrange_split(s, i, seq![ETAG_AVOID_LOCATION], l.wire_spec());
            l.lemma_read_write(s, i + 1);
        },
        EventV::Converge(l) => {
            lemma_subrange_split(s, i, seq![ETAG_CONVERGE], l.wire_spec());
            l.lemma_read_write(s, i + 1);
        },
        EventV::MaliciousAgent(a) => {
            lemma_subrange_split(s, i, seq![ETAG_MALICIOUS_AGENT], enc_agent(a));
            lemma_enc_dec_agent(a, s, i + 1);
        },
    }
}

/// A decoded event is well formed and re-encodes to the bytes consumed.
proof fn lemma_dec_enc_event<L: Location>(s: Seq<u8>, i: int)
    requires
        0 <= i <= s.len(),
    ensures
        (dec_event::<L>(s, i) matches Some((v, n)) ==> {
            &&& i <= n <= s.len()
            &&& v.wf()
            &&& enc_event(v) == s.subrange(i, n)
        }),
{
    if dec_event::<L>(s, i) is Some {
        let t = s[i];
        if t == ETAG_ARTIFACT || t == ETAG_ARTIFACT_GONE {
            lemma_dec_enc_artifact::<L>(s, i + 1);
            let (a, n) = dec_artifact::<L>(s, i + 1)->Some_0;
            assert(enc_artifact(a) == s.subrange(i + 1, n));
            assert(seq![t] + s.subrange(i + 1, n) =~= s.subrange(i, n));
        } else if t == ETAG_AVOID_LOCATION || t == ETAG_CONVERGE {
            L::lemma_write_read(s, i + 1);
            let (l, n) = L::read_spec(s, i + 1)->Some_0;
            assert(l.wire_spec() == s.subrange(i + 1, n));
            assert(seq![t] + s.subrange(i + 1, n) =~= s.subrange(i, n));
        } else {
            lemma_dec_enc_agent::<L>(s, i + 1);
            let (a, n) = dec_agent::<L>(s, i + 1)->Some_0;
            assert(enc_agent(a) == s.subrange(i + 1, n));
            assert(seq![t] + s.subrange(i + 1, n) =~= s.subrange(i, n));
        }
    }
}

/// An encoded message decodes to the message it came from.
proof fn lemma_enc_dec_msg<L: Location>(m: MsgV<L>, s: Seq<u8>, i: int)
    requires
        m.wf(),
        0 <= i,
        i + enc_msg(m).len() <= s.len(),
        s.subrange(i, i + enc_msg(m).len() as int) == enc_msg(m),
    ensures
        dec_msg::<L>(s, i) == Some((m, i + enc_msg(m).len() as int)),
{
    lemma_subrange_split(s, i, enc_agent(m.from), enc_event(m.event));
    lemma_enc_dec_agent(m.from, s, i);
    lemma_enc_dec_event(m.event, s, i + enc_agent(m.from).len() as int);
    assert(dec_msg::<L>(s, i) == Some(
        (MsgV { from: m.from, event: m.event }, i + enc_msg(m).len() as int),
    ));
}

/// A decoded message is well formed and re-encodes to the bytes consumed.
proof fn lemma_dec_enc_msg<L: Location>(s: Seq<u8>, i: int)
    requires
        0 <= i <= s.len(),
    ensures
        (dec_msg::<L>(s, i) matches Some((v, n)) ==> {
            &&& i <= n <= s.len()
            &&& v.wf()
            &&& enc_msg(v) == s.subrange(i, n)
        }),
{
    if dec_msg::<L>(s, i) is Some {
        lemma_dec_enc_agent::<L>(s, i);
        let (from, j) = dec_agent::<L>(s, i)->Some_0;
        lemma_dec_enc_event::<L>(s, j);
        let (e, n) = dec_event::<L>(s, j)->Some_0;
        lemma_subrange_join(s, i, j, n);
    }
}

/// An encoded run of agents decodes to the run it came from.
proof fn lemma_enc_dec_agents<L: Location>(list: Seq<AgentV<L>>, s: Seq<u8>, i: int)
    requires
        forall|t: int| 0 <= t < list.len() ==> (#[trigger] list[t]).wf(),
        0 <= i,
        i + enc_agents(list).len() <= s.len(),
        s.subrange(i, i + enc_agents(list).len() as int) == enc_agents(list),
    ensures
        dec_agents::<L>(s, i, list.len()) == Some((list, i + enc_agents(list).len() as int)),
    decreases list.len(),
{
    if list.len() == 0 {
        assert(list =~= Seq::<AgentV<L>>::empty());
    } else {
        let a = list[0];
        let rest = list.skip(1);
        assert(enc_agents(list) == enc_agent(a) + enc_agents(rest));
        lemma_subrange_split(s, i, enc_agent(a), enc_agents(rest));
        lemma_enc_dec_agent(a, s, i);
        let j = i + enc_agent(a).len() as int;
        assert(forall|t: int| 0 <= t < rest.len() ==> (#[trigger] rest[t]).wf());
        lemma_enc_dec_agents(rest, s, j);
        assert(seq![a] + rest =~= list);
    }
}

/// A decoded run of agents is well formed and re-encodes to the bytes
/// consumed.
proof fn lemma_dec_enc_agents<L: Location>(s: Seq<u8>, i: int, count: nat)
    requires
        0 <= i <= s.len(),
    ensures
        (dec_agents::<L>(s, i, count) matches Some((list, n)) ==> {
            &&& i <= n <= s.len()
            &&& list.len() == count
            &&& (forall|t: int| 0 <= t < list.len() ==> (#[trigger] list[t]).wf())
            &&& enc_agents(list) == s.subrange(i, n)
        }),
    decreases count,
{
    if count == 0 {
        if dec_agents::<L>(s, i, count) is Some {
            assert(enc_agents(Seq::<AgentV<L>>::empty()) =~= s.subrange(i, i));
        }
    } else {
        if dec_agents::<L>(s, i, count) is Some {
            lemma_dec_enc_agent::<L>(s, i);
            let (a, j) = dec_agent::<L>(s, i)->Some_0;
            lemma_dec_enc_agents::<L>(s, j, (count - 1) as nat);
            let (rest, n) = dec_agents::<L>(s, j, (count - 1) as nat)->Some_0;
            let list = seq![a] + rest;
            assert(list[0] == a && list.skip(1) =~= rest);
            assert(enc_agents(list) == enc_agent(a) + enc_agents(rest));
            lemma_subrange_join(s, i, j, n);
        }
    }
}

/// Only RPCs whose agent runs fit the one-byte count can appear on the wire.
pub open spec fn rpc_bounded<L: Location>(v: RpcV<L>) -> bool {
    match v {
        RpcV::HrtbtAck(list) => list.len() < 256,
        _ => true,
    }
}

/// An encoded RPC decodes to the RPC it came from.
proof fn lemma_enc_dec_rpc<L: Location>(v: RpcV<L>, s: Seq<u8>, i: int)
    requires
        v.wf(),
        rpc_bounded(v),
        0 <= i,
        i + enc_rpc(v).len() <= s.len(),
        s.subrange(i, i + enc_rpc(v).len() as int) == enc_rpc(v),
    ensures
        dec_rpc::<L>(s, i) == Some((v, i + enc_rpc(v).len() as int)),
{
    assert(s[i] == enc_rpc(v)[0]);
    match v {
        RpcV::Hrtbt(a) => {
            lemma_subrange_split(s, i, seq![TAG_HRTBT], enc_agent(a));
            lemma_enc_dec_agent(a, s, i + 1);
        },
        RpcV::HrtbtAck(list) => {
            let head = seq![TAG_HRTBTACK, list.len() as u8];
            lemma_subrange_split(s, i, head, enc_agents(list));
            assert(s[i + 1] == enc_rpc(v)[1]);
            assert(s[i + 1] as nat == list.len());
            lemma_enc_dec_agents(list, s, i + 2);
        },
        RpcV::Join(a) => {
            lemma_subrange_split(s, i, seq![TAG_JOIN], enc_agent(a));
            lemma_enc_dec_agent(a, s, i + 1);
        },
        RpcV::Info(l, m) => {
            assert(enc_rpc(v) == (seq![TAG_INFO] + l.wire_spec()) + enc_msg(m));
            lemma_subrange_split(s, i, seq![TAG_INFO] + l.wire_spec(), enc_msg(m));
            lemma_subrange_split(s, i, seq![TAG_INFO], l.wire_spec());
            l.lemma_read_write(s, i + 1);
            lemma_enc_dec_msg(m, s, i + 1 + l.wire_spec().len() as int);
        },
        RpcV::Broadcast(m) => {
            lemma_subrange_split(s, i, seq![TAG_BROADCAST], enc_msg(m));
            lemma_enc_dec_msg(m, s, i + 1);
        },
    }
}

/// A decoded RPC is well formed, fits its counts, and re-encodes to the
/// bytes consumed.
proof fn lemma_dec_enc_rpc<L: Location>(s: Seq<u8>, i: int)
    requires
        0 <= i <= s.len(),
    ensures
        (dec_rpc::<L>(s, i) matches Some((v, n)) ==> {
            &&& i <= n <= s.len()
            &&& v.wf()
            &&& rpc_bounded(v)
            &&& enc_rpc(v) == s.subrange(i, n)
        }),
{
    if dec_rpc::<L>(s, i) is Some {
        let t = s[i];
        if t == TAG_HRTBT || t == TAG_JOIN {
            lemma_dec_enc_agent::<L>(s, i + 1);
            let (a, n) = dec_agent::<L>(s, i + 1)->Some_0;
            assert(seq![t] + s.subrange(i + 1, n) =~= s.subrange(i, n));
        } else if t == TAG_HRTBTACK {
            lemma_dec_enc_agents::<L>(s, i + 2, s[i + 1] as nat);
            let (list, n) = dec_agents::<L>(s, i + 2, s[i + 1] as nat)->Some_0;
            assert(list.len() as u8 == s[i + 1]);
            assert(seq![TAG_HRTBTACK, list.len() as u8] + s.subrange(i + 2, n) =~= s.subrange(
                i,
                n,
            ));
        } else if t == TAG_INFO {
            L::lemma_write_read(s, i + 1);
            let (l, j) = L::read_spec(s, i + 1)->Some_0;
            lemma_dec_enc_msg::<L>(s, j);
            let (m, n) = dec_msg::<L>(s, j)->Some_0;
            assert((seq![TAG_INFO] + s.subrange(i + 1, j)) + s.subrange(j, n) =~= s.subrange(
                i,
                n,
            ));
            assert(enc_rpc(RpcV::Info(l, m)) == (seq![TAG_INFO] + l.wire_spec()) + enc_msg(m));
        } else {
            lemma_dec_enc_msg::<L>(s, i + 1);
            let (m, n) = dec_msg::<L>(s, i + 1)->Some_0;
            assert(seq![TAG_BROADCAST] + s.subrange(i + 1, n) =~= s.subrange(i, n));
        }
    }
}

/// Round trip, stated once for every RPC value: decoding an encoding gives
/// the value back, whole.
pub proof fn lemma_rpc_round_trip<L: Location>(v: RpcV<L>)
    requires
        v.wf(),
        rpc_bounded(v),
    ensures
        dec_rpc::<L>(enc_rpc(v), 0) == Some((v, enc_rpc(v).len() as int)),
{
    assert(enc_rpc(v).len() > 0);
    assert(enc_rpc(v).subrange(0, enc_rpc(v).len() as int) =~= enc_rpc(v));
    lemma_enc_dec_rpc(v, enc_rpc(v), 0);
}

/// Canonical framing, stated once for every byte sequence: whatever decodes
/// as an RPC is well formed and re-encodes to exactly the bytes consumed.
pub proof fn lemma_rpc_canonical<L: Location>(s: Seq<u8>)
    ensures
        (dec_rpc::<L>(s, 0) matches Some((v, n)) ==> {
            &&& 0 <= n <= s.len()
            &&& v.wf()
            &&& rpc_bounded(v)
            &&& enc_rpc(v) == s.subrange(0, n)
        }),
{
    lemma_dec_enc_rpc::<L>(s, 0);
}


// ---------------------------------------------------------------------------
// The public framing surface.
// ---------------------------------------------------------------------------

/// Views of real agents always carry 20-byte identifiers.
proof fn lemma_vec_agents_wf<L: Location>(v: Seq<SwarmAgent<L>>, lv: Seq<AgentV<L>>)
    requires
        lv == v.map_values(|a: SwarmAgent<L>| a@),
    ensures
        forall|t: int| 0 <= t < lv.len() ==> (#[trigger] lv[t]).wf(),
{
    assert forall|t: int| 0 <= t < lv.len() implies (#[trigger] lv[t]).wf() by {
        assert(lv[t] == v[t]@);
    }
}

/// Encodes one RPC into a fresh buffer.
///
/// Succeeds exactly when the encoding fits [`MAX_PACKET_SIZE`]; an agent run
/// longer than its one-byte count can hold is itself far over that bound.
pub fn encode_rpc<L: Location>(rpc: &IronSwarmRPC<L>) -> (r: SwarmResult<Vec<u8>>)
    ensures
        (match r {
            Ok(b) => {
                &&& enc_rpc(rpc@).len() <= MAX_PACKET_SIZE
                &&& b@ == enc_rpc(rpc@)
            },
            Err(e) => {
                &&& enc_rpc(rpc@).len() > MAX_PACKET_SIZE
                &&& e == SwarmError::OversizePacket
            },
        }),
{
    let mut out: Vec<u8> = Vec::new();
    match rpc {
        IronSwarmRPC::HRTBT(a) => {
            out.push(TAG_HRTBT);
            encode_agent(a, &mut out);
            proof {
                assert(out@ =~= enc_rpc(rpc@));
            }
        },
        IronSwarmRPC::HRTBTACK(list) => {
            let ghost lv = list@.map_values(|a: SwarmAgent<L>| a@);
            if list.len() > 255 {
                proof {
                    lemma_vec_agents_wf(list@, lv);
                    lemma_enc_agents_min_len(lv);
                }
                return Err(SwarmError::OversizePacket);
            }
            out.push(TAG_HRTBTACK);
            out.push(list.len() as u8);
            let mut k: usize = 0;
            while k < list.len()
                invariant
                    k <= list@.len() <= 255,
                    lv == list@.map_values(|a: SwarmAgent<L>| a@),
                    out@ == seq![TAG_HRTBTACK, list@.len() as u8] + enc_agents(lv.take(k as int)),
                decreases list@.len() - k,
            {
                encode_agent(&list[k], &mut out);
                proof {
                    lemma_enc_agents_concat(lv.take(k as int), seq![lv[k as int]]);
                    lemma_enc_agents_one(lv[k as int]);
                    assert(lv.take(k as int) + seq![lv[k as int]] =~= lv.take(k + 1));
                    assert(out@ =~= seq![TAG_HRTBTACK, list@.len() as u8] + enc_agents(
                        lv.take(k + 1),
                    ));
                }
                k += 1;
            }
            proof {
                assert(lv.take(list@.len() as int) =~= lv);
            }
        },
        IronSwarmRPC::JOIN(a) => {
            out.push(TAG_JOIN);
            encode_agent(a, &mut out);
            proof {
                assert(out@ =~= enc_rpc(rpc@));
            }
        },
        IronSwarmRPC::INFO(l, m) => {
            out.push(TAG_INFO);
            l.write_wire(&mut out);
            encode_msg(m, &mut out);
            proof {
                assert(out@ =~= enc_rpc(rpc@));
            }
        },
        IronSwarmRPC::BROADCAST(m) => {
            out.push(TAG_BROADCAST);
            encode_msg(m, &mut out);
            proof {
                assert(out@ =~= enc_rpc(rpc@));
            }
        },
    }
    if out.len() > MAX_PACKET_SIZE {
        Err(SwarmError::OversizePacket)
    } else {
        Ok(out)
    }
}

/// Decodes one RPC found at `pos`.
fn decode_rpc_at<L: Location>(buf: &[u8], pos: usize) -> (r: SwarmResult<
    (IronSwarmRPC<L>, usize),
>)
    requires
        pos <= buf@.len(),
    ensures
        (match r {
            Ok((v, next)) => {
                &&& dec_rpc::<L>(buf@, pos as int) == Some((v@, next as int))
                &&& pos <= next <= buf@.len()
            },
            Err(e) => {
                &&& dec_rpc::<L>(buf@, pos as int) is None
                &&& e == dec_rpc_err::<L>(buf@, pos as int)
            },
        }),
{
    if pos < buf.len() {
        let t = buf[pos];
        if t == TAG_HRTBT {
            match decode_agent::<L>(buf, pos + 1) {
                Ok((a, j)) => Ok((IronSwarmRPC::HRTBT(a), j)),
                Err(e) => Err(e),
            }
        } else if t == TAG_HRTBTACK {
            if buf.len() - pos >= 2 {
                let count = buf[pos + 1];
                match decode_agents::<L>(buf, pos + 2, count) {
                    Ok((list, j)) => Ok((IronSwarmRPC::HRTBTACK(list), j)),
                    Err(e) => Err(e),
                }
            } else {
                Err(SwarmError::DecodingFailure)
            }
        } else if t == TAG_JOIN {
            match decode_agent::<L>(buf, pos + 1) {
                Ok((a, j)) => Ok((IronSwarmRPC::JOIN(a), j)),
                Err(e) => Err(e),
            }
        } else if t == TAG_INFO {
            let (l, j) = match L::read_wire(buf, pos + 1) {
                Ok(x) => x,
                Err(e) => {
                    return Err(e);
                },
            };
            match decode_msg::<L>(buf, j) {
                Ok((m, k)) => Ok((IronSwarmRPC::INFO(l, m), k)),
                Err(e) => Err(e),
            }
        } else if t == TAG_BROADCAST {
            match decode_msg::<L>(buf, pos + 1) {
                Ok((m, j)) => Ok((IronSwarmRPC::BROADCAST(m), j)),
                Err(e) => Err(e),
            }
        } else {
            Err(SwarmError::DecodingFailure)
        }
    } else {
        Err(SwarmError::DecodingFailure)
    }
}

/// Decodes one whole buffer as one RPC.
///
/// Fails with exactly the error the layout names, and with a plain decoding
/// failure when bytes trail the RPC: one datagram carries one RPC and
/// nothing else.
pub fn decode_rpc<L: Location>(buf: &[u8]) -> (r: SwarmResult<IronSwarmRPC<L>>)
    ensures
        (match r {
            Ok(rpc) => dec_rpc::<L>(buf@, 0) == Some((rpc@, buf@.len() as int)),
            Err(e) => match dec_rpc::<L>(buf@, 0) {
                Some((v, n)) => n != buf@.len() && e == SwarmError::DecodingFailure,
                None => e == dec_rpc_err::<L>(buf@, 0),
            },
        }),
{
    match decode_rpc_at::<L>(buf, 0) {
        Ok((rpc, next)) => {
            if next == buf.len() {
                Ok(rpc)
            } else {
                Err(SwarmError::DecodingFailure)
            }
        },
        Err(e) => Err(e),
    }
}

/// Encodes one packet: its body's bytes, nothing more.
pub fn encode_packet<L: Location>(pkt: &Packet<IronSwarmRPC<L>>) -> (r: SwarmResult<Vec<u8>>)
    ensures
        (match r {
            Ok(b) => {
                &&& enc_rpc(pkt.body@).len() <= MAX_PACKET_SIZE
                &&& b@ == enc_rpc(pkt.body@)
            },
            Err(e) => {
                &&& enc_rpc(pkt.body@).len() > MAX_PACKET_SIZE
                &&& e == SwarmError::OversizePacket
            },
        }),
{
    encode_rpc(&pkt.body)
}

/// Decodes one whole buffer as one packet.
pub fn decode_packet<L: Location>(buf: &[u8]) -> (r: SwarmResult<Packet<IronSwarmRPC<L>>>)
    ensures
        (match r {
            Ok(pkt) => dec_rpc::<L>(buf@, 0) == Some((pkt.body@, buf@.len() as int)),
            Err(e) => match dec_rpc::<L>(buf@, 0) {
                Some((v, n)) => n != buf@.len() && e == SwarmError::DecodingFailure,
                None => e == dec_rpc_err::<L>(buf@, 0),
            },
        }),
{
    match decode_rpc::<L>(buf) {
        Ok(rpc) => Ok(Packet::new(rpc)),
        Err(e) => Err(e),
    }
}

} // verus!
