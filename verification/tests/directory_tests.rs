use giralnet::addr::Address;
use giralnet::circuit::{parse_node_list_response, response_is_ack};
use giralnet::directory::{handle_request, secrets_match, DirectoryAction, NodeRegistry};
use giralnet::protocol::{DirectoryRequest, NodeInfo};

fn node(port: u16, key: &[u8]) -> NodeInfo {
    NodeInfo {
        address: Address { o0: 127, o1: 0, o2: 0, o3: 1, port },
        public_key: key.to_vec(),
    }
}

const SECRET: &[u8] = b"correct horse";

#[test]
fn secret_comparison_is_exact() {
    assert!(secrets_match(b"abc", b"abc"));
    assert!(!secrets_match(b"abc", b"abd"));
    assert!(!secrets_match(b"abc", b"abcd"));
    assert!(!secrets_match(b"", b"x"));
    assert!(secrets_match(b"", b""));
}

#[test]
fn wrong_secret_closes_without_reply() {
    let mut registry = NodeRegistry::new();
    let request = DirectoryRequest::Register {
        info: node(9001, b"KEY"),
        secret: b"wrong".to_vec(),
    };
    match handle_request(&mut registry, request, SECRET) {
        DirectoryAction::Close => {},
        other => panic!("expected a silent close, got {:?}", other),
    }
    assert_eq!(registry.len(), 0);

    let request = DirectoryRequest::GetNodes { secret: b"also wrong".to_vec() };
    match handle_request(&mut registry, request, SECRET) {
        DirectoryAction::Close => {},
        other => panic!("expected a silent close, got {:?}", other),
    }
}

#[test]
fn register_then_fetch_node_list() {
    let mut registry = NodeRegistry::new();
    for (port, key) in [(9001u16, b"K1".as_slice()), (9002, b"K2"), (9003, b"K3")] {
        let request = DirectoryRequest::Register {
            info: node(port, key),
            secret: SECRET.to_vec(),
        };
        match handle_request(&mut registry, request, SECRET) {
            DirectoryAction::Reply(bytes) => assert!(response_is_ack(&bytes)),
            other => panic!("expected an acknowledgment, got {:?}", other),
        }
    }
    assert_eq!(registry.len(), 3);

    let request = DirectoryRequest::GetNodes { secret: SECRET.to_vec() };
    match handle_request(&mut registry, request, SECRET) {
        DirectoryAction::Reply(bytes) => {
            assert!(!response_is_ack(&bytes));
            let nodes = parse_node_list_response(&bytes).unwrap();
            assert_eq!(nodes.len(), 3);
            let mut ports: Vec<u16> = nodes.iter().map(|n| n.address.port).collect();
            ports.sort();
            assert_eq!(ports, vec![9001, 9002, 9003]);
        },
        other => panic!("expected the node list, got {:?}", other),
    }
}

#[test]
fn reregistration_replaces_by_address() {
    let mut registry = NodeRegistry::new();
    for key in [b"OLD".as_slice(), b"NEW"] {
        let request = DirectoryRequest::Register {
            info: node(9001, key),
            secret: SECRET.to_vec(),
        };
        match handle_request(&mut registry, request, SECRET) {
            DirectoryAction::Reply(bytes) => assert!(response_is_ack(&bytes)),
            other => panic!("expected an acknowledgment, got {:?}", other),
        }
    }
    assert_eq!(registry.len(), 1);
    let found = registry.lookup(&Address { o0: 127, o1: 0, o2: 0, o3: 1, port: 9001 });
    assert_eq!(found.unwrap().public_key, b"NEW".to_vec());
}

#[test]
fn rejected_registration_is_absent_from_the_list() {
    let mut registry = NodeRegistry::new();
    let ok = DirectoryRequest::Register { info: node(9001, b"K1"), secret: SECRET.to_vec() };
    assert!(matches!(handle_request(&mut registry, ok, SECRET), DirectoryAction::Reply(_)));
    let bad = DirectoryRequest::Register { info: node(9002, b"K2"), secret: b"nope".to_vec() };
    assert!(matches!(handle_request(&mut registry, bad, SECRET), DirectoryAction::Close));

    let request = DirectoryRequest::GetNodes { secret: SECRET.to_vec() };
    match handle_request(&mut registry, request, SECRET) {
        DirectoryAction::Reply(bytes) => {
            let nodes = parse_node_list_response(&bytes).unwrap();
            assert_eq!(nodes.len(), 1);
            assert_eq!(nodes[0].address.port, 9001);
        },
        other => panic!("expected the node list, got {:?}", other),
    }
}

#[test]
fn bad_reply_is_rejected_by_clients() {
    assert!(parse_node_list_response(&[0, 0, 0, 0]).is_err());
    assert!(parse_node_list_response(b"junk").is_err());
    assert!(!response_is_ack(b"junk"));
    assert!(!response_is_ack(&[0, 0, 0, 1, 0, 0, 0, 0]));
}
