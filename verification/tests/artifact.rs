use swarm::artifact::SwarmArtifact;
use swarm::codec;
use swarm::scalar::ScalarLocation;

#[test]
fn artifact_bincode_test() {
    let loc = ScalarLocation { val: 9 };

    let art = SwarmArtifact::new(loc);
    let mut encoded: Vec<u8> = Vec::new();
    codec::encode_artifact(&art, &mut encoded);
    let (dec_art, used): (SwarmArtifact<ScalarLocation>, usize) =
        codec::decode_artifact(&encoded, 0).ok().unwrap();

    assert_eq!(used, encoded.len());
    assert_eq!(art.location(), dec_art.location());
    assert_eq!(art.id(), dec_art.id());
}
