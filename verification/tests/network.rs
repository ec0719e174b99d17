use swarm::agent::{SwarmAddr, SwarmAgent};
use swarm::artifact::SwarmArtifact;
use swarm::codec;
use swarm::network::{DispatchOutcome, IronSwarmRPC, Outbound, SwarmNetwork};
use swarm::scalar::ScalarLocation;
use swarm::swarm::SwarmMsg;

fn sl(val: i64) -> ScalarLocation {
    ScalarLocation { val }
}

fn local_socket(port: u16) -> SwarmAddr {
    SwarmAddr::new(127, 0, 0, 1, port)
}

fn construct_artifact() -> SwarmArtifact<ScalarLocation> {
    SwarmArtifact::new(sl(9))
}

fn construct_agent() -> SwarmAgent<ScalarLocation> {
    SwarmAgent::new(sl(9), local_socket(9999))
}

fn construct_swarm_msg() -> SwarmMsg<ScalarLocation> {
    SwarmMsg::new_artifact_msg(construct_agent(), construct_artifact())
}

/// Carries one outbound datagram over the wire codec to the node it was
/// addressed to and lets that node handle it.
fn deliver(
    out: Outbound<ScalarLocation>,
    node: &mut SwarmNetwork<ScalarLocation>,
) -> DispatchOutcome<ScalarLocation> {
    assert_eq!(out.dest, node.address());
    let encoded = codec::encode_rpc(&out.rpc).ok().unwrap();
    let rpc = codec::decode_rpc(&encoded).ok().unwrap();
    node.dispatch_rpc(rpc)
}

fn bincode_rpc_tester(rpc: IronSwarmRPC<ScalarLocation>) {
    let orig_rpc = rpc.clone();
    let encoded = codec::encode_rpc(&rpc).ok().unwrap();
    let dec_rpc: IronSwarmRPC<ScalarLocation> = codec::decode_rpc(&encoded).ok().unwrap();
    assert_eq!(orig_rpc, dec_rpc);
}

#[test]
fn network_bincode_test() {
    let mut ack_vec = Vec::new();
    ack_vec.push(construct_agent());

    bincode_rpc_tester(IronSwarmRPC::HRTBT(construct_agent()));
    bincode_rpc_tester(IronSwarmRPC::HRTBTACK(ack_vec));
    bincode_rpc_tester(IronSwarmRPC::JOIN(construct_agent()));
    bincode_rpc_tester(IronSwarmRPC::INFO(sl(10), construct_swarm_msg()));
    bincode_rpc_tester(IronSwarmRPC::BROADCAST(construct_swarm_msg()));
}

#[test]
fn send_rpc_test() {
    let network_to = SwarmNetwork::new(sl(0), local_socket(9000));
    let network_from = SwarmNetwork::new(sl(10), local_socket(9001));

    let msg = construct_swarm_msg();
    let exp_rpc = IronSwarmRPC::BROADCAST(msg.clone());

    let out = network_from.send_broadcast(msg, network_to.address());
    assert_eq!(out.dest, network_to.address());
    let encoded = codec::encode_rpc(&out.rpc).ok().unwrap();
    let recv_rpc: IronSwarmRPC<ScalarLocation> = codec::decode_rpc(&encoded).ok().unwrap();

    assert_eq!(exp_rpc, recv_rpc);
}

#[test]
fn join_self_closest_test() {
    let mut network1 = SwarmNetwork::new(sl(0), local_socket(9010));
    let network2 = SwarmNetwork::new(sl(10), local_socket(9011));
    let joining = SwarmNetwork::new(sl(2), local_socket(9012));
    network1.neighbors.push(network2.local_agent.clone());

    let out = joining.join(network1.address());
    let res = deliver(out, &mut network1);
    assert!(matches!(res, DispatchOutcome::Quiet));

    assert_eq!(network1.neighbors.len(), 2);
}

#[test]
fn join_other_closest_test() {
    let mut network1 = SwarmNetwork::new(sl(0), local_socket(9020));
    let mut network2 = SwarmNetwork::new(sl(10), local_socket(9021));
    let joining = SwarmNetwork::new(sl(9), local_socket(9022));
    network1.neighbors.push(network2.local_agent.clone());

    let out = joining.join(network1.address());
    let fwd = match deliver(out, &mut network1) {
        DispatchOutcome::Send(o) => o,
        _ => panic!("expected the join to be forwarded"),
    };
    deliver(fwd, &mut network2);

    assert_eq!(network1.neighbors.len(), 1);
    assert_eq!(network2.neighbors.len(), 1);
}

#[test]
fn join_self_closest_over_max_test() {
    let mut network1 = SwarmNetwork::new(sl(10), local_socket(9030));
    let network2 = SwarmNetwork::new(sl(1), local_socket(9031));
    let network3 = SwarmNetwork::new(sl(2), local_socket(9032));
    let mut network4 = SwarmNetwork::new(sl(3), local_socket(9033));
    let joining = SwarmNetwork::new(sl(20), local_socket(9034));
    network1.neighbors.push(network2.local_agent.clone());
    network1.neighbors.push(network3.local_agent.clone());
    network1.neighbors.push(network4.local_agent.clone());

    let out = joining.join(network1.address());
    let fwd = match deliver(out, &mut network1) {
        DispatchOutcome::Send(o) => o,
        _ => panic!("expected the join to be forwarded"),
    };
    deliver(fwd, &mut network4);

    assert_eq!(network1.neighbors.len(), 3);
    assert_eq!(network4.neighbors.len(), 1);
}

#[test]
fn htbt_and_ack_add_neighbor_test() {
    let mut network1 = SwarmNetwork::new(sl(0), local_socket(9040));
    let mut network2 = SwarmNetwork::new(sl(10), local_socket(9041));
    network1.neighbors.push(network2.local_agent.clone());

    // Neighbor of ACK'd swarm agent
    let network3 = SwarmNetwork::new(sl(9), local_socket(9042));
    network2.neighbors.push(network3.local_agent.clone());

    // New agent that is not in neighbor list.
    let mut network4 = SwarmNetwork::new(sl(11), local_socket(9043));
    network4.neighbors.push(network1.local_agent.clone());
    network4.neighbors.push(network2.local_agent.clone());

    let mut hb = network1.heartbeat();
    let ack = match deliver(hb.remove(0), &mut network2) {
        DispatchOutcome::Send(o) => o,
        _ => panic!("expected a heartbeat ack"),
    };
    let res = deliver(ack, &mut network1);
    assert!(matches!(res, DispatchOutcome::Quiet));

    let mut hb4 = network4.heartbeat();
    let ack1 = match deliver(hb4.remove(0), &mut network1) {
        DispatchOutcome::Send(o) => o,
        _ => panic!("expected a heartbeat ack"),
    };
    let ack2 = match deliver(hb4.remove(0), &mut network2) {
        DispatchOutcome::Send(o) => o,
        _ => panic!("expected a heartbeat ack"),
    };
    let res = deliver(ack1, &mut network4);
    assert!(matches!(res, DispatchOutcome::Quiet));
    drop(ack2);

    assert_eq!(network1.neighbors.len(), 3);
    assert_eq!(network2.neighbors.len(), 3);
}

#[test]
fn hrtbt_ack_filter_neighbors_test() {
    let mut network1 = SwarmNetwork::new(sl(0), local_socket(9050));
    let mut network2 = SwarmNetwork::new(sl(10), local_socket(9051));
    let network3 = SwarmNetwork::new(sl(9), local_socket(9052));

    network1.neighbors.push(network2.local_agent.clone());
    network1.neighbors.push(network3.local_agent.clone());
    network2.neighbors.push(network3.local_agent.clone());

    let mut hb = network1.heartbeat();
    let ack = match deliver(hb.remove(0), &mut network2) {
        DispatchOutcome::Send(o) => o,
        _ => panic!("expected a heartbeat ack"),
    };
    let res = deliver(ack, &mut network1);
    assert!(matches!(res, DispatchOutcome::Quiet));

    assert_eq!(network1.neighbors.len(), 2);
}

#[test]
fn hrtbt_over_max_no_ack_test() {
    let mut network1 = SwarmNetwork::new(sl(10), local_socket(9060));
    let network2 = SwarmNetwork::new(sl(1), local_socket(9061));
    let network3 = SwarmNetwork::new(sl(2), local_socket(9062));
    let network4 = SwarmNetwork::new(sl(3), local_socket(9063));
    let mut network5 = SwarmNetwork::new(sl(20), local_socket(9064));

    network1.neighbors.push(network2.local_agent.clone());
    network1.neighbors.push(network3.local_agent.clone());
    network1.neighbors.push(network4.local_agent.clone());

    network5.neighbors.push(network1.local_agent.clone());

    let mut hb = network5.heartbeat();
    let res = deliver(hb.remove(0), &mut network1);
    // The full node drops the probe: no HRTBTACK comes back to network5.
    assert!(matches!(res, DispatchOutcome::Quiet));

    assert_eq!(network1.neighbors.len(), 3);
    assert_eq!(network2.neighbors.len(), 0);
    assert_eq!(network3.neighbors.len(), 0);
    assert_eq!(network4.neighbors.len(), 0);
    assert_eq!(network5.neighbors.len(), 1);
}

#[test]
fn info_msg_test() {
    let mut network1 = SwarmNetwork::new(sl(1), local_socket(9070));
    let mut network2 = SwarmNetwork::new(sl(2), local_socket(9071));
    let mut network3 = SwarmNetwork::new(sl(3), local_socket(9072));
    let network4 = SwarmNetwork::new(sl(4), local_socket(9073));

    network3.neighbors.push(network2.local_agent.clone());
    network3.neighbors.push(network4.local_agent.clone());
    network2.neighbors.push(network1.local_agent.clone());

    let agent = SwarmAgent::new(sl(0), local_socket(9074));
    let artifact = SwarmArtifact::new(sl(3));
    let msg = SwarmMsg::new_artifact_gone_msg(agent, artifact);
    let exp_msg = msg.clone();

    let loc = *network1.local_agent.location();
    let fwd = match network3.route_info_msg(loc, msg) {
        DispatchOutcome::Send(o) => o,
        _ => panic!("expected the info to be forwarded"),
    };

    let fwd = match deliver(fwd, &mut network2) {
        DispatchOutcome::Send(o) => o,
        _ => panic!("expected the info to be forwarded"),
    };
    match deliver(fwd, &mut network1) {
        DispatchOutcome::Deliver(m) => assert_eq!(m, exp_msg),
        _ => panic!("expected local delivery at the terminus"),
    }
    // network4 saw nothing: no datagram was ever addressed to it.
}

#[test]
fn info_msg_no_send_test() {
    let network1 = SwarmNetwork::new(sl(1), local_socket(9080));
    let network2 = SwarmNetwork::new(sl(2), local_socket(9081));
    let mut network3 = SwarmNetwork::new(sl(10), local_socket(9082));
    let network4 = SwarmNetwork::new(sl(4), local_socket(9083));

    network3.neighbors.push(network2.local_agent.clone());
    network3.neighbors.push(network4.local_agent.clone());

    let agent = SwarmAgent::new(sl(0), local_socket(9084));
    let artifact = SwarmArtifact::new(sl(3));
    let msg = SwarmMsg::new_artifact_gone_msg(agent, artifact);
    let exp_msg = msg.clone();

    // Msg is not sent anywhere: network3 itself is nearest to the target.
    match network3.route_info_msg(sl(9), msg) {
        DispatchOutcome::Deliver(m) => assert_eq!(m, exp_msg),
        _ => panic!("expected local delivery"),
    }

    assert_eq!(network1.neighbors.len(), 0);
    assert_eq!(network2.neighbors.len(), 0);
    assert_eq!(network4.neighbors.len(), 0);
}
