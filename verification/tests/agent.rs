use swarm::agent::{SwarmAddr, SwarmAgent};
use swarm::codec;
use swarm::scalar::ScalarLocation;

fn test_addr() -> SwarmAddr {
    SwarmAddr::new(127, 0, 0, 0, 1234)
}

#[test]
fn new_test() {
    let addr = test_addr();
    let loc = ScalarLocation { val: 9 };

    let _agent = SwarmAgent::new(loc, addr);
}

#[test]
fn location_test() {
    let addr = test_addr();
    let loc = ScalarLocation { val: 9 };

    let agent = SwarmAgent::new(loc, addr);
    assert_eq!(agent.location(), &loc);
}

#[test]
fn update_location_test() {
    let addr = test_addr();
    let loc = ScalarLocation { val: 9 };
    let upd_loc = ScalarLocation { val: -9 };

    let mut agent = SwarmAgent::new(loc, addr);
    agent.update_location(upd_loc);
    assert_eq!(agent.location(), &upd_loc);
}

#[test]
fn id_test() {
    let addr = test_addr();
    let loc = ScalarLocation { val: 9 };

    let agent = SwarmAgent::new(loc, addr);
    assert_eq!(agent.id(), &agent.swarm_id);
}

#[test]
fn address_test() {
    let addr = test_addr();
    let loc = ScalarLocation { val: 9 };

    let agent = SwarmAgent::new(loc, addr);
    assert_eq!(*agent.address(), agent.addr);
}

#[test]
fn agent_bincode_test() {
    let addr = test_addr();
    let loc = ScalarLocation { val: 9 };

    let agent = SwarmAgent::new(loc, addr);
    let mut encoded: Vec<u8> = Vec::new();
    codec::encode_agent(&agent, &mut encoded);
    let (dec_agnt, used): (SwarmAgent<ScalarLocation>, usize) =
        codec::decode_agent(&encoded, 0).ok().unwrap();

    assert_eq!(used, encoded.len());
    assert_eq!(agent.address(), dec_agnt.address());
    assert_eq!(agent.location(), dec_agnt.location());
    assert_eq!(agent.id(), dec_agnt.id());
}
