use giralnet::addr::Address;
use giralnet::bytes::two_frames;
use giralnet::circuit::select_circuit_hops;
use giralnet::errors::{CircuitError, ProtocolError};
use giralnet::onion::{build_onion, peel_onion, OnionFrames};
use giralnet::protocol::{NodeInfo, OnionLayer};
use rsa::pkcs8::{EncodePrivateKey, EncodePublicKey, LineEnding};

fn test_keypair() -> (Vec<u8>, Vec<u8>) {
    let key = rsa::RsaPrivateKey::new(&mut rand::rngs::OsRng, 1024).expect("keygen");
    let priv_der = key.to_pkcs8_der().expect("pkcs8").as_bytes().to_vec();
    let pub_pem = key
        .to_public_key()
        .to_public_key_pem(LineEnding::LF)
        .expect("pem")
        .into_bytes();
    (priv_der, pub_pem)
}

fn test_circuit() -> (Vec<Vec<u8>>, Vec<NodeInfo>) {
    let mut privs = Vec::new();
    let mut nodes = Vec::new();
    for i in 0..3u16 {
        let (priv_der, pub_pem) = test_keypair();
        privs.push(priv_der);
        nodes.push(NodeInfo {
            address: Address { o0: 127, o1: 0, o2: 0, o3: 1, port: 9001 + i },
            public_key: pub_pem,
        });
    }
    (privs, nodes)
}

fn peel_relay(priv_der: &[u8], frames: (&[u8], &[u8])) -> (Vec<u8>, Vec<u8>) {
    match peel_onion(priv_der, frames.0, frames.1) {
        Ok(OnionLayer::Relay { next_hop, payload }) => (next_hop, payload),
        other => panic!("expected a relay layer, got {:?}", other),
    }
}

#[test]
fn onion_peels_through_three_hops() {
    let (privs, nodes) = test_circuit();
    let OnionFrames { handshake, onion } = build_onion(&nodes).unwrap();

    let (next1, payload1) = peel_relay(&privs[0], (&handshake, &onion));
    assert_eq!(next1, b"127.0.0.1:9002".to_vec());

    let (f1, f2) = two_frames(&payload1).unwrap();
    let (next2, payload2) = peel_relay(&privs[1], (&f1, &f2));
    assert_eq!(next2, b"127.0.0.1:9003".to_vec());

    let (g1, g2) = two_frames(&payload2).unwrap();
    match peel_onion(&privs[2], &g1, &g2) {
        Ok(OnionLayer::Exit) => {},
        other => panic!("expected the exit marker, got {:?}", other),
    }
}

#[test]
fn corrupted_onion_frame_fails_as_bad_layer() {
    let (privs, nodes) = test_circuit();
    let OnionFrames { handshake, mut onion } = build_onion(&nodes).unwrap();
    let mid = onion.len() / 2;
    onion[mid] ^= 0x01;
    assert_eq!(peel_onion(&privs[0], &handshake, &onion), Err(ProtocolError::BadLayer));
}

#[test]
fn corrupted_handshake_fails_as_bad_handshake() {
    let (privs, nodes) = test_circuit();
    let OnionFrames { mut handshake, onion } = build_onion(&nodes).unwrap();
    let last = handshake.len() - 1;
    handshake[last] ^= 0x80;
    assert_eq!(peel_onion(&privs[0], &handshake, &onion), Err(ProtocolError::BadHandshake));
}

#[test]
fn wrong_hop_cannot_peel() {
    let (privs, nodes) = test_circuit();
    let OnionFrames { handshake, onion } = build_onion(&nodes).unwrap();
    assert_eq!(peel_onion(&privs[1], &handshake, &onion), Err(ProtocolError::BadHandshake));
}

#[test]
fn two_nodes_are_insufficient() {
    let (_, nodes) = test_circuit();
    let two: Vec<NodeInfo> = nodes.into_iter().take(2).collect();
    match select_circuit_hops(two) {
        Err(CircuitError::InsufficientNodes) => {},
        other => panic!("expected insufficient nodes, got {:?}", other),
    }
}

#[test]
fn selected_hops_come_from_the_pool() {
    let (_, nodes) = test_circuit();
    let pool = nodes.clone();
    let hops = select_circuit_hops(nodes).unwrap();
    assert_eq!(hops.len(), 3);
    for h in &hops {
        assert!(pool.iter().any(|n| n.address == h.address && n.public_key == h.public_key));
    }
    let mut ports: Vec<u16> = hops.iter().map(|h| h.address.port).collect();
    ports.sort();
    ports.dedup();
    assert_eq!(ports.len(), 3);
}
