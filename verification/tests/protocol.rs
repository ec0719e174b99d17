use swarm::agent::{SwarmAddr, SwarmAgent};
use swarm::byteid::{ByteId, BYTE_ID_LEN};
use swarm::codec::{self, SwarmError, MAX_PACKET_SIZE};
use swarm::network::{DispatchOutcome, IronSwarmRPC, SwarmNetwork, MAX_NEIGHBORS};
use swarm::scalar::ScalarLocation;
use swarm::swarm::{RecordingReactor, SwarmController, SwarmEvent, SwarmMsg};

fn sl(val: i64) -> ScalarLocation {
    ScalarLocation { val }
}

fn local_socket(port: u16) -> SwarmAddr {
    SwarmAddr::new(127, 0, 0, 1, port)
}

fn fixed_agent() -> SwarmAgent<ScalarLocation> {
    SwarmAgent {
        swarm_id: ByteId([0x01; BYTE_ID_LEN]),
        loc: sl(9),
        addr: SwarmAddr::new(127, 0, 0, 1, 1234),
    }
}

#[test]
fn framing_round_trip() {
    let rpc = IronSwarmRPC::HRTBT(fixed_agent());
    let encoded = codec::encode_rpc(&rpc).ok().unwrap();
    let decoded: IronSwarmRPC<ScalarLocation> = codec::decode_rpc(&encoded).ok().unwrap();
    assert_eq!(rpc, decoded);
}

#[test]
fn framing_layout_is_fixed() {
    // tag, 20 identifier bytes, 8 location bytes little-endian, then the
    // address: form byte, 4 octets, port big-endian.
    let rpc = IronSwarmRPC::HRTBT(fixed_agent());
    let encoded = codec::encode_rpc(&rpc).ok().unwrap();
    assert_eq!(encoded.len(), 1 + 20 + 8 + 7);
    assert_eq!(encoded[0], 1);
    assert_eq!(&encoded[1..21], &[0x01; 20]);
    assert_eq!(&encoded[21..29], &[9, 0, 0, 0, 0, 0, 0, 0]);
    assert_eq!(encoded[29], 4);
    assert_eq!(&encoded[30..34], &[127, 0, 0, 1]);
    assert_eq!(encoded[34], 0x04);
    assert_eq!(encoded[35], 0xd2);
}

#[test]
fn decode_empty_fails() {
    let res: Result<IronSwarmRPC<ScalarLocation>, SwarmError> = codec::decode_rpc(&[]);
    assert_eq!(res.err().unwrap(), SwarmError::DecodingFailure);
}

#[test]
fn decode_unknown_tag_fails() {
    let res: Result<IronSwarmRPC<ScalarLocation>, SwarmError> = codec::decode_rpc(&[9, 0, 0]);
    assert_eq!(res.err().unwrap(), SwarmError::DecodingFailure);
}

#[test]
fn decode_truncated_fails() {
    let rpc = IronSwarmRPC::HRTBT(fixed_agent());
    let mut encoded = codec::encode_rpc(&rpc).ok().unwrap();
    encoded.pop();
    let res: Result<IronSwarmRPC<ScalarLocation>, SwarmError> = codec::decode_rpc(&encoded);
    assert_eq!(res.err().unwrap(), SwarmError::DecodingFailure);
}

#[test]
fn decode_trailing_bytes_fail() {
    let rpc = IronSwarmRPC::HRTBT(fixed_agent());
    let mut encoded = codec::encode_rpc(&rpc).ok().unwrap();
    encoded.push(0);
    let res: Result<IronSwarmRPC<ScalarLocation>, SwarmError> = codec::decode_rpc(&encoded);
    assert_eq!(res.err().unwrap(), SwarmError::DecodingFailure);
}

#[test]
fn decode_ipv6_form_fails() {
    let rpc = IronSwarmRPC::HRTBT(fixed_agent());
    let mut encoded = codec::encode_rpc(&rpc).ok().unwrap();
    // The address form byte sits after the tag, identifier and location.
    assert_eq!(encoded[29], 4);
    encoded[29] = 6;
    let res: Result<IronSwarmRPC<ScalarLocation>, SwarmError> = codec::decode_rpc(&encoded);
    assert_eq!(res.err().unwrap(), SwarmError::UnsupportedAddressForm);
}

#[test]
fn encode_oversize_fails() {
    // 30 agents of 35 bytes each overflow the 1024-byte packet bound.
    let mut ack = Vec::new();
    for _ in 0..30 {
        ack.push(SwarmAgent::new(sl(1), local_socket(1)));
    }
    let res = codec::encode_rpc(&IronSwarmRPC::HRTBTACK(ack));
    assert_eq!(res.err().unwrap(), SwarmError::OversizePacket);

    // 29 agents still fit.
    let mut ack = Vec::new();
    for _ in 0..29 {
        ack.push(SwarmAgent::new(sl(1), local_socket(1)));
    }
    let encoded = codec::encode_rpc(&IronSwarmRPC::HRTBTACK(ack)).ok().unwrap();
    assert!(encoded.len() <= MAX_PACKET_SIZE);
}

#[test]
fn join_empty_table_accepts() {
    let mut network1 = SwarmNetwork::new(sl(0), local_socket(9101));
    let joining = SwarmNetwork::new(sl(50), local_socket(9102));

    let out = joining.join(network1.address());
    let rpc = codec::decode_rpc(&codec::encode_rpc(&out.rpc).ok().unwrap()).ok().unwrap();
    let res = network1.dispatch_rpc(rpc);
    assert!(matches!(res, DispatchOutcome::Quiet));
    assert_eq!(network1.neighbors.len(), 1);
    assert_eq!(network1.neighbors[0].id(), joining.local_agent.id());
}

#[test]
fn broadcast_delivers_locally_only() {
    let mut network1 = SwarmNetwork::new(sl(0), local_socket(9111));
    let network2 = SwarmNetwork::new(sl(10), local_socket(9112));
    network1.neighbors.push(network2.local_agent.clone());

    let origin = SwarmAgent::new(sl(5), local_socket(9113));
    let artifact = swarm::artifact::SwarmArtifact::new(sl(7));
    let msg = SwarmMsg::new_artifact_msg(origin, artifact);
    let rpc = IronSwarmRPC::BROADCAST(msg.clone());
    let wire = codec::decode_rpc(&codec::encode_rpc(&rpc).ok().unwrap()).ok().unwrap();

    let mut controller: SwarmController<RecordingReactor<ScalarLocation>, ScalarLocation> =
        SwarmController::new(RecordingReactor::new());
    match network1.dispatch_rpc(wire) {
        DispatchOutcome::Deliver(m) => controller.send_msg(&m),
        // No datagram leaves the node on a broadcast.
        _ => panic!("expected local delivery"),
    }

    assert_eq!(controller.actor.log().len(), 1);
    assert_eq!(controller.actor.log()[0], msg);
    assert_eq!(network1.neighbors.len(), 1);
}

#[test]
fn heartbeat_probes_every_neighbor() {
    let mut network1 = SwarmNetwork::new(sl(0), local_socket(9121));
    let network2 = SwarmNetwork::new(sl(10), local_socket(9122));
    let network3 = SwarmNetwork::new(sl(20), local_socket(9123));
    network1.neighbors.push(network2.local_agent.clone());
    network1.neighbors.push(network3.local_agent.clone());

    let outs = network1.heartbeat();
    assert_eq!(outs.len(), 2);
    assert_eq!(outs[0].dest, network2.address());
    assert_eq!(outs[1].dest, network3.address());
    for out in outs {
        match &out.rpc {
            IronSwarmRPC::HRTBT(a) => assert_eq!(a, &network1.local_agent),
            _ => panic!("expected a heartbeat"),
        }
    }
}

#[test]
fn gossip_assimilation_is_idempotent() {
    let mut network1 = SwarmNetwork::new(sl(0), local_socket(9131));
    let network2 = SwarmNetwork::new(sl(10), local_socket(9132));
    let network3 = SwarmNetwork::new(sl(20), local_socket(9133));

    let list = vec![network2.local_agent.clone(), network3.local_agent.clone()];
    network1.merge_gossip(list.clone());
    let once = network1.neighbors.clone();
    network1.merge_gossip(list);
    assert_eq!(network1.neighbors, once);
    assert_eq!(network1.neighbors.len(), 2);
}

#[test]
fn gossip_drops_self_and_duplicates() {
    let mut network1 = SwarmNetwork::new(sl(0), local_socket(9141));
    let network2 = SwarmNetwork::new(sl(10), local_socket(9142));

    let list = vec![
        network1.local_agent.clone(),
        network2.local_agent.clone(),
        network2.local_agent.clone(),
    ];
    network1.merge_gossip(list);
    assert_eq!(network1.neighbors.len(), 1);
    assert_eq!(network1.neighbors[0].id(), network2.local_agent.id());
}

#[test]
fn closest_neighbor_tie_breaks_first() {
    let mut network1 = SwarmNetwork::new(sl(100), local_socket(9151));
    let near_a = SwarmNetwork::new(sl(1), local_socket(9152));
    let near_b = SwarmNetwork::new(sl(3), local_socket(9153));
    network1.neighbors.push(near_a.local_agent.clone());
    network1.neighbors.push(near_b.local_agent.clone());

    // Both sit at distance 1 from the target; the earlier entry wins.
    let found = network1.find_closest_neighbor(&sl(2)).unwrap();
    assert_eq!(found.id(), near_a.local_agent.id());
}

#[test]
fn table_never_exceeds_bound_on_acceptance() {
    let mut network1 = SwarmNetwork::new(sl(0), local_socket(9161));
    let joiner_locs: Vec<i64> = vec![10, 4, 1, 2, 3];
    for (k, loc) in joiner_locs.into_iter().enumerate() {
        let peer = SwarmNetwork::new(sl(loc), local_socket(9170 + k as u16));
        let out = peer.join(network1.address());
        let rpc = codec::decode_rpc(&codec::encode_rpc(&out.rpc).ok().unwrap()).ok().unwrap();
        network1.dispatch_rpc(rpc);
        assert!(network1.neighbors.len() <= MAX_NEIGHBORS as usize);
    }
    assert_eq!(network1.neighbors.len(), MAX_NEIGHBORS as usize);
}

#[test]
fn events_round_trip_in_messages() {
    let origin = SwarmAgent::new(sl(5), local_socket(9181));
    let mal = SwarmAgent::new(sl(6), local_socket(9182));
    let events = vec![
        SwarmEvent::Artifact(swarm::artifact::SwarmArtifact::new(sl(7))),
        SwarmEvent::ArtifactGone(swarm::artifact::SwarmArtifact::new(sl(8))),
        SwarmEvent::AvoidLocation(sl(9)),
        SwarmEvent::Converge(sl(10)),
        SwarmEvent::MaliciousAgent(mal),
    ];
    for event in events {
        let msg = SwarmMsg { from_agent: origin.clone(), event };
        let rpc = IronSwarmRPC::BROADCAST(msg.clone());
        let encoded = codec::encode_rpc(&rpc).ok().unwrap();
        let decoded: IronSwarmRPC<ScalarLocation> = codec::decode_rpc(&encoded).ok().unwrap();
        assert_eq!(decoded, IronSwarmRPC::BROADCAST(msg));
    }
}

#[test]
fn ack_count_too_high_fails() {
    let ack = vec![SwarmAgent::new(sl(1), local_socket(9191))];
    let mut encoded = codec::encode_rpc(&IronSwarmRPC::HRTBTACK(ack)).ok().unwrap();
    // Claim one more agent than the datagram carries.
    assert_eq!(encoded[1], 1);
    encoded[1] = 2;
    let res: Result<IronSwarmRPC<ScalarLocation>, SwarmError> = codec::decode_rpc(&encoded);
    assert_eq!(res.err().unwrap(), SwarmError::DecodingFailure);
}

#[test]
fn ack_count_too_low_fails() {
    let ack = vec![
        SwarmAgent::new(sl(1), local_socket(9192)),
        SwarmAgent::new(sl(2), local_socket(9193)),
    ];
    let mut encoded = codec::encode_rpc(&IronSwarmRPC::HRTBTACK(ack)).ok().unwrap();
    // Claim one agent fewer: the second one trails the framed RPC.
    assert_eq!(encoded[1], 2);
    encoded[1] = 1;
    let res: Result<IronSwarmRPC<ScalarLocation>, SwarmError> = codec::decode_rpc(&encoded);
    assert_eq!(res.err().unwrap(), SwarmError::DecodingFailure);
}
