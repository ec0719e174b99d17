use std::cell::RefCell;
use std::rc::Rc;

use swarm::agent::{SwarmAddr, SwarmAgent};
use swarm::artifact::SwarmArtifact;
use swarm::scalar::ScalarLocation;
use swarm::swarm::{SwarmController, SwarmEvent, SwarmMsg};
use swarm::ReactToSwarm;

const ART_EVENT_RECV: u8 = 1 << 0;
const ART_GONE_EVENT_RECV: u8 = 1 << 1;
const AVOID_LOC_EVENT_RECV: u8 = 1 << 2;
const CONV_EVENT_RECV: u8 = 1 << 3;
const MAL_AGN_EVENT_RECV: u8 = 1 << 4;

const ART_LOC: i64 = 1 << 0;
const AGN_LOC: i64 = 1 << 1;
const AVD_LOC: i64 = 1 << 2;
const CNV_LOC: i64 = 1 << 3;

struct Tester {
    react_writer: Rc<RefCell<Vec<u8>>>,
}

impl ReactToSwarm<ScalarLocation> for Tester {
    fn react(&mut self, msg: &SwarmMsg<ScalarLocation>) {
        match msg.event() {
            SwarmEvent::Artifact(art) => {
                assert_eq!(art.location().val, ART_LOC);
                self.react_writer.borrow_mut().push(ART_EVENT_RECV);
            }
            SwarmEvent::ArtifactGone(art) => {
                assert_eq!(art.location().val, ART_LOC);
                self.react_writer.borrow_mut().push(ART_GONE_EVENT_RECV);
            }
            SwarmEvent::AvoidLocation(loc) => {
                assert_eq!(loc.val, AVD_LOC);
                self.react_writer.borrow_mut().push(AVOID_LOC_EVENT_RECV);
            }
            SwarmEvent::Converge(loc) => {
                assert_eq!(loc.val, CNV_LOC);
                self.react_writer.borrow_mut().push(CONV_EVENT_RECV);
            }
            SwarmEvent::MaliciousAgent(agn) => {
                assert_eq!(agn.location().val, AGN_LOC);
                self.react_writer.borrow_mut().push(MAL_AGN_EVENT_RECV);
            }
        }

        assert_eq!(msg.from_agent().location().val, AGN_LOC);
    }
}

fn test_addr() -> SwarmAddr {
    SwarmAddr::new(127, 0, 0, 0, 55555)
}

fn swarm_tester() -> (SwarmController<Tester, ScalarLocation>, Rc<RefCell<Vec<u8>>>) {
    let reader = Rc::new(RefCell::new(Vec::new()));
    let tester = Tester { react_writer: Rc::clone(&reader) };
    (SwarmController::new(tester), reader)
}

fn read_byte(reader: &Rc<RefCell<Vec<u8>>>) -> u8 {
    reader.borrow_mut().remove(0)
}

#[test]
fn send_artifact_msg_test() {
    let (mut swarm, reader) = swarm_tester();

    let agent = SwarmAgent::new(ScalarLocation { val: AGN_LOC }, test_addr());
    let artifact = SwarmArtifact::new(ScalarLocation { val: ART_LOC });

    swarm.send_artifact(agent, artifact);
    assert_eq!(read_byte(&reader), ART_EVENT_RECV);
}

#[test]
fn send_artifact_gone_msg_test() {
    let (mut swarm, reader) = swarm_tester();

    let agent = SwarmAgent::new(ScalarLocation { val: AGN_LOC }, test_addr());
    let artifact = SwarmArtifact::new(ScalarLocation { val: ART_LOC });

    swarm.send_artifact_gone(agent, artifact);
    assert_eq!(read_byte(&reader), ART_GONE_EVENT_RECV);
}

#[test]
fn send_avoid_location_msg_test() {
    let (mut swarm, reader) = swarm_tester();

    let agent = SwarmAgent::new(ScalarLocation { val: AGN_LOC }, test_addr());

    swarm.send_avoid_location(agent, ScalarLocation { val: AVD_LOC });
    assert_eq!(read_byte(&reader), AVOID_LOC_EVENT_RECV);
}

#[test]
fn send_converge_msg_test() {
    let (mut swarm, reader) = swarm_tester();

    let agent = SwarmAgent::new(ScalarLocation { val: AGN_LOC }, test_addr());

    swarm.send_converge(agent, ScalarLocation { val: CNV_LOC });
    assert_eq!(read_byte(&reader), CONV_EVENT_RECV);
}

#[test]
fn send_malicious_agent_msg_test() {
    let (mut swarm, reader) = swarm_tester();

    let agent = SwarmAgent::new(ScalarLocation { val: AGN_LOC }, test_addr());
    let mal_agent = SwarmAgent::new(ScalarLocation { val: AGN_LOC }, test_addr());

    swarm.send_malicious_agent(agent, mal_agent);
    assert_eq!(read_byte(&reader), MAL_AGN_EVENT_RECV);
}

#[test]
fn set_reactor_test() {
    let (mut swarm, first_reader) = swarm_tester();

    let second_reader = Rc::new(RefCell::new(Vec::new()));
    let second = Tester { react_writer: Rc::clone(&second_reader) };
    swarm.set_reactor(second);

    let agent = SwarmAgent::new(ScalarLocation { val: AGN_LOC }, test_addr());

    swarm.send_converge(agent, ScalarLocation { val: CNV_LOC });
    assert!(first_reader.borrow().is_empty());
    assert_eq!(read_byte(&second_reader), CONV_EVENT_RECV);
}
