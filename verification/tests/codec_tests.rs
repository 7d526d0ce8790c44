use giralnet::addr::{Address, address_to_text, read_address};
use giralnet::bytes::{push_frame, push_u16_be, push_u32_be, one_frame, take_frame, two_frames};
use giralnet::codec::{
    decode_circuit_message, decode_directory_request, decode_directory_response, decode_handshake,
    decode_message_stream, decode_node_info, decode_onion_layer, encode_circuit_message,
    encode_directory_request, encode_directory_response, encode_handshake, encode_message_stream,
    encode_node_info, encode_node_list_response, encode_onion_layer,
};
use giralnet::protocol::{
    CircuitMessage, DirectoryRequest, DirectoryResponse, HandshakeMessage, NodeInfo, OnionLayer,
};

fn addr(o0: u8, o1: u8, o2: u8, o3: u8, port: u16) -> Address {
    Address { o0, o1, o2, o3, port }
}

#[test]
fn u32_big_endian_bytes() {
    let mut out: Vec<u8> = Vec::new();
    push_u32_be(&mut out, 0x0102_0304);
    assert_eq!(out, vec![1, 2, 3, 4]);
    let mut out16: Vec<u8> = Vec::new();
    push_u16_be(&mut out16, 0x1234);
    assert_eq!(out16, vec![0x12, 0x34]);
}

#[test]
fn frame_carries_length_prefix() {
    let mut out: Vec<u8> = Vec::new();
    push_frame(&mut out, &[9, 8, 7]);
    assert_eq!(out, vec![0, 0, 0, 3, 9, 8, 7]);
    let (payload, consumed) = take_frame(&out).unwrap();
    assert_eq!(payload, vec![9, 8, 7]);
    assert_eq!(consumed, 7);
}

#[test]
fn incomplete_frame_is_not_taken() {
    assert!(take_frame(&[0, 0, 0]).is_none());
    assert!(take_frame(&[0, 0, 0, 5, 1, 2]).is_none());
}

#[test]
fn two_frames_split_exactly() {
    let mut buf: Vec<u8> = Vec::new();
    push_frame(&mut buf, &[1, 2]);
    push_frame(&mut buf, &[3]);
    let (a, b) = two_frames(&buf).unwrap();
    assert_eq!(a, vec![1, 2]);
    assert_eq!(b, vec![3]);
    buf.push(0);
    assert!(two_frames(&buf).is_none());
}

#[test]
fn one_frame_rejects_trailing_bytes() {
    let mut buf: Vec<u8> = Vec::new();
    push_frame(&mut buf, &[5, 5]);
    assert_eq!(one_frame(&buf).unwrap(), vec![5, 5]);
    buf.push(1);
    assert!(one_frame(&buf).is_none());
}

#[test]
fn address_wire_form_and_text() {
    let a = addr(127, 0, 0, 1, 9001);
    let text = address_to_text(&a);
    assert_eq!(text, b"127.0.0.1:9001".to_vec());
    let mut wire: Vec<u8> = Vec::new();
    giralnet::addr::push_address(&mut wire, &a);
    assert_eq!(wire, vec![4, 127, 0, 0, 1, 0x23, 0x29]);
    assert_eq!(read_address(&wire, 0), Some(a));
}

#[test]
fn handshake_round_trip() {
    let h = HandshakeMessage { encrypted_aes_key: vec![1, 2, 3] };
    let bytes = encode_handshake(&h);
    assert_eq!(bytes, vec![0, 0, 0, 3, 1, 2, 3]);
    let back = decode_handshake(&bytes).unwrap();
    assert_eq!(back.encrypted_aes_key, vec![1, 2, 3]);
}

#[test]
fn onion_layer_exact_bytes_and_round_trip() {
    let exit = encode_onion_layer(&OnionLayer::Exit);
    assert_eq!(exit, vec![0, 0, 0, 1]);
    assert!(matches!(decode_onion_layer(&exit), Some(OnionLayer::Exit)));

    let relay = OnionLayer::Relay { next_hop: b"a:1".to_vec(), payload: vec![5] };
    let bytes = encode_onion_layer(&relay);
    assert_eq!(bytes, vec![0, 0, 0, 0, 0, 0, 0, 3, 97, 58, 49, 0, 0, 0, 1, 5]);
    match decode_onion_layer(&bytes) {
        Some(OnionLayer::Relay { next_hop, payload }) => {
            assert_eq!(next_hop, b"a:1".to_vec());
            assert_eq!(payload, vec![5]);
        },
        other => panic!("expected relay layer, got {:?}", other),
    }
}

#[test]
fn onion_layer_rejects_trailing_garbage() {
    let mut bytes = encode_onion_layer(&OnionLayer::Exit);
    bytes.push(0);
    assert!(decode_onion_layer(&bytes).is_none());
}

#[test]
fn circuit_message_exact_bytes() {
    let begin = CircuitMessage::BeginStream { id: 1, destination: addr(127, 0, 0, 1, 80) };
    assert_eq!(
        encode_circuit_message(&begin),
        vec![0, 0, 0, 0, 0, 0, 0, 1, 4, 127, 0, 0, 1, 0, 80]
    );
    let data = CircuitMessage::StreamData { id: 2, data: vec![9, 9] };
    assert_eq!(encode_circuit_message(&data), vec![0, 0, 0, 1, 0, 0, 0, 2, 0, 0, 0, 2, 9, 9]);
    let end = CircuitMessage::EndStream { id: 7 };
    assert_eq!(encode_circuit_message(&end), vec![0, 0, 0, 2, 0, 0, 0, 7]);
}

#[test]
fn circuit_message_round_trip() {
    let msgs = vec![
        CircuitMessage::BeginStream { id: 3, destination: addr(10, 0, 0, 9, 443) },
        CircuitMessage::StreamData { id: 3, data: vec![0, 255, 1] },
        CircuitMessage::StreamData { id: 3, data: vec![] },
        CircuitMessage::EndStream { id: 3 },
    ];
    for m in &msgs {
        let bytes = encode_circuit_message(m);
        assert_eq!(decode_circuit_message(&bytes).as_ref(), Some(m));
    }
}

#[test]
fn circuit_message_rejects_bad_tag() {
    assert!(decode_circuit_message(&[0, 0, 0, 9, 0, 0, 0, 1]).is_none());
    assert!(decode_circuit_message(&[0, 0, 0]).is_none());
}

#[test]
fn message_stream_round_trip_in_order() {
    let msgs = vec![
        CircuitMessage::BeginStream { id: 1, destination: addr(127, 0, 0, 1, 80) },
        CircuitMessage::StreamData { id: 1, data: b"GET / HTTP/1.0\r\n\r\n".to_vec() },
        CircuitMessage::BeginStream { id: 2, destination: addr(127, 0, 0, 1, 81) },
        CircuitMessage::StreamData { id: 2, data: vec![42] },
        CircuitMessage::EndStream { id: 1 },
        CircuitMessage::EndStream { id: 2 },
    ];
    let stream = encode_message_stream(&msgs);
    let back = decode_message_stream(&stream).unwrap();
    assert_eq!(back, msgs);
}

#[test]
fn message_stream_rejects_truncation() {
    let msgs = vec![CircuitMessage::EndStream { id: 1 }];
    let mut stream = encode_message_stream(&msgs);
    stream.pop();
    assert!(decode_message_stream(&stream).is_none());
}

#[test]
fn node_info_round_trip() {
    let n = NodeInfo { address: addr(127, 0, 0, 1, 9002), public_key: b"PEMPEM".to_vec() };
    let bytes = encode_node_info(&n);
    let back = decode_node_info(&bytes).unwrap();
    assert_eq!(back.address, n.address);
    assert_eq!(back.public_key, n.public_key);
}

#[test]
fn directory_request_round_trip() {
    let info = NodeInfo { address: addr(127, 0, 0, 1, 9001), public_key: vec![7; 40] };
    let req = DirectoryRequest::Register { info, secret: b"swordfish".to_vec() };
    let bytes = encode_directory_request(&req);
    match decode_directory_request(&bytes) {
        Some(DirectoryRequest::Register { info, secret }) => {
            assert_eq!(info.address, addr(127, 0, 0, 1, 9001));
            assert_eq!(info.public_key, vec![7; 40]);
            assert_eq!(secret, b"swordfish".to_vec());
        },
        other => panic!("expected register request, got {:?}", other),
    }

    let get = DirectoryRequest::GetNodes { secret: b"swordfish".to_vec() };
    let bytes = encode_directory_request(&get);
    assert_eq!(bytes, {
        let mut v = vec![0, 0, 0, 1, 0, 0, 0, 9];
        v.extend_from_slice(b"swordfish");
        v
    });
    match decode_directory_request(&bytes) {
        Some(DirectoryRequest::GetNodes { secret }) => assert_eq!(secret, b"swordfish".to_vec()),
        other => panic!("expected get-nodes request, got {:?}", other),
    }
}

#[test]
fn directory_response_round_trip() {
    let ack = encode_directory_response(&DirectoryResponse::Ack);
    assert_eq!(ack, vec![0, 0, 0, 0]);
    assert!(matches!(decode_directory_response(&ack), Some(DirectoryResponse::Ack)));

    let nodes = vec![
        NodeInfo { address: addr(127, 0, 0, 1, 9001), public_key: vec![1, 2] },
        NodeInfo { address: addr(127, 0, 0, 1, 9002), public_key: vec![3] },
    ];
    let bytes = encode_node_list_response(&nodes);
    match decode_directory_response(&bytes) {
        Some(DirectoryResponse::NodeList(back)) => {
            assert_eq!(back.len(), 2);
            assert_eq!(back[0].address, nodes[0].address);
            assert_eq!(back[0].public_key, nodes[0].public_key);
            assert_eq!(back[1].address, nodes[1].address);
            assert_eq!(back[1].public_key, nodes[1].public_key);
        },
        other => panic!("expected node list, got {:?}", other),
    }
}

#[test]
fn directory_response_rejects_wrong_count() {
    let nodes = vec![NodeInfo { address: addr(1, 2, 3, 4, 5), public_key: vec![9] }];
    let mut bytes = encode_node_list_response(&nodes);
    bytes[7] = 2;
    assert!(decode_directory_response(&bytes).is_none());
}
