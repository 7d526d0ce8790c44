//! Deterministic binary encoding of the data model.
//!
//! Variants carry a big-endian 32-bit tag; byte fields carry a 32-bit
//! length prefix; addresses use their 7-byte wire form. Decoders are
//! strict: they accept exactly the bytes an encoder produces, with no
//! trailing garbage, and every encoder/decoder pair round-trips.

use vstd::prelude::*;
use crate::addr::{Address, spec_address_bytes, spec_decode_address, push_address, read_address};
use crate::bytes::{
    MAX_FRAME_PAYLOAD, spec_u32_be, spec_u32_from_be, push_u32_be, read_u32_be, spec_frame,
    push_frame, spec_one_frame, one_frame, spec_two_frames, two_frames, spec_take_frame,
    lemma_u32_be_round_trip,
    lemma_one_frame_of_frame, lemma_two_frames_of_frames,
};
use crate::protocol::{
    HandshakeMessage, OnionLayer, SpecOnionLayer, CircuitMessage, SpecCircuitMessage, NodeInfo,
    SpecNodeInfo, DirectoryRequest, SpecDirectoryRequest, DirectoryResponse, SpecDirectoryResponse,
    spec_node_list_view, spec_message_views,
};

verus! {

/// Serialized form of a handshake: its sealed key as one length-prefixed
/// byte field.
pub open spec fn spec_encode_handshake(key: Seq<u8>) -> Seq<u8>
    recommends
        key.len() <= MAX_FRAME_PAYLOAD,
{
    spec_frame(key)
}

/// The sealed key carried by a serialized handshake, if `s` is one.
pub open spec fn spec_decode_handshake(s: Seq<u8>) -> Option<Seq<u8>> {
    spec_one_frame(s)
}

pub proof fn lemma_handshake_round_trip(key: Seq<u8>)
    requires
        key.len() <= MAX_FRAME_PAYLOAD,
    ensures
        spec_decode_handshake(spec_encode_handshake(key)) == Some(key),
{
    lemma_one_frame_of_frame(key);
}

/// Serializes a handshake message.
pub fn encode_handshake(h: &HandshakeMessage) -> (r: Vec<u8>)
    requires
        h@.len() <= MAX_FRAME_PAYLOAD,
    ensures
        r@ == spec_encode_handshake(h@),
{
    let mut out: Vec<u8> = Vec::new();
    push_frame(&mut out, h.encrypted_aes_key.as_slice());
    assert(out@ =~= spec_encode_handshake(h@));
    out
}

/// Deserializes a handshake message.
pub fn decode_handshake(buf: &[u8]) -> (r: Option<HandshakeMessage>)
    ensures
        match r {
            Some(h) => spec_decode_handshake(buf@) == Some(h@),
            None => spec_decode_handshake(buf@) is None,
        },
{
    match one_frame(buf) {
        Some(key) => Some(HandshakeMessage { encrypted_aes_key: key }),
        None => None,
    }
}

/// Variant tag of `OnionLayer::Relay`.
pub const TAG_RELAY: u32 = 0;

/// Variant tag of `OnionLayer::Exit`.
pub const TAG_EXIT: u32 = 1;

/// Serialized form of an onion layer.
pub open spec fn spec_encode_onion_layer(l: SpecOnionLayer) -> Seq<u8> {
    match l {
        SpecOnionLayer::Relay { next_hop, payload } => spec_u32_be(TAG_RELAY) + spec_frame(
            next_hop,
        ) + spec_frame(payload),
        SpecOnionLayer::Exit => spec_u32_be(TAG_EXIT),
    }
}

/// The onion layer whose serialized form is `s`, if `s` is one.
pub open spec fn spec_decode_onion_layer(s: Seq<u8>) -> Option<SpecOnionLayer> {
    if s.len() < 4 {
        None
    } else {
        let tag = spec_u32_from_be(s.subrange(0, 4));
        let body = s.skip(4);
        if tag == TAG_RELAY {
            match spec_two_frames(body) {
                Some(hp) => Some(SpecOnionLayer::Relay { next_hop: hp.0, payload: hp.1 }),
                None => None,
            }
        } else if tag == TAG_EXIT {
            if body.len() == 0 {
                Some(SpecOnionLayer::Exit)
            } else {
                None
            }
        } else {
            None
        }
    }
}

pub proof fn lemma_onion_layer_round_trip(l: SpecOnionLayer)
    requires
        l matches SpecOnionLayer::Relay { next_hop, payload } ==> next_hop.len()
            <= MAX_FRAME_PAYLOAD && payload.len() <= MAX_FRAME_PAYLOAD,
    ensures
        spec_decode_onion_layer(spec_encode_onion_layer(l)) == Some(l),
{
    let s = spec_encode_onion_layer(l);
    match l {
        SpecOnionLayer::Relay { next_hop, payload } => {
            assert(s.subrange(0, 4) =~= spec_u32_be(TAG_RELAY));
            lemma_u32_be_round_trip(TAG_RELAY);
            assert(s.skip(4) =~= spec_frame(next_hop) + spec_frame(payload));
            lemma_two_frames_of_frames(next_hop, payload);
        },
        SpecOnionLayer::Exit => {
            assert(s.subrange(0, 4) =~= spec_u32_be(TAG_EXIT));
            lemma_u32_be_round_trip(TAG_EXIT);
            assert(s.skip(4) =~= Seq::<u8>::empty());
        },
    }
}

/// Serializes an onion layer.
pub fn encode_onion_layer(l: &OnionLayer) -> (r: Vec<u8>)
    requires
        l@ matches SpecOnionLayer::Relay { next_hop, payload } ==> next_hop.len()
            <= MAX_FRAME_PAYLOAD && payload.len() <= MAX_FRAME_PAYLOAD,
    ensures
        r@ == spec_encode_onion_layer(l@),
{
    let mut out: Vec<u8> = Vec::new();
    match l {
        OnionLayer::Relay { next_hop, payload } => {
            push_u32_be(&mut out, TAG_RELAY);
            push_frame(&mut out, next_hop.as_slice());
            push_frame(&mut out, payload.as_slice());
            assert(out@ =~= spec_encode_onion_layer(l@));
        },
        OnionLayer::Exit => {
            push_u32_be(&mut out, TAG_EXIT);
            assert(out@ =~= spec_encode_onion_layer(l@));
        },
    }
    out
}

/// Deserializes an onion layer.
pub fn decode_onion_layer(buf: &[u8]) -> (r: Option<OnionLayer>)
    ensures
        match r {
            Some(l) => spec_decode_onion_layer(buf@) == Some(l@),
            None => spec_decode_onion_layer(buf@) is None,
        },
{
    if buf.len() < 4 {
        return None;
    }
    let tag = read_u32_be(buf, 0);
    let body = &buf[4..buf.len()];
    assert(body@ =~= buf@.skip(4));
    if tag == TAG_RELAY {
        match two_frames(body) {
            Some((next_hop, payload)) => Some(OnionLayer::Relay { next_hop, payload }),
            None => None,
        }
    } else if tag == TAG_EXIT {
        if body.len() == 0 {
            Some(OnionLayer::Exit)
        } else {
            None
        }
    } else {
        None
    }
}

/// Variant tag of `CircuitMessage::BeginStream`.
pub const TAG_BEGIN_STREAM: u32 = 0;

/// Variant tag of `CircuitMessage::StreamData`.
pub const TAG_STREAM_DATA: u32 = 1;

/// Variant tag of `CircuitMessage::EndStream`.
pub const TAG_END_STREAM: u32 = 2;

/// Serialized form of a circuit message.
pub open spec fn spec_encode_circuit_message(m: SpecCircuitMessage) -> Seq<u8> {
    match m {
        SpecCircuitMessage::BeginStream { id, destination } => spec_u32_be(TAG_BEGIN_STREAM)
            + spec_u32_be(id) + spec_address_bytes(destination),
        SpecCircuitMessage::StreamData { id, data } => spec_u32_be(TAG_STREAM_DATA) + spec_u32_be(
            id,
        ) + spec_frame(data),
        SpecCircuitMessage::EndStream { id } => spec_u32_be(TAG_END_STREAM) + spec_u32_be(id),
    }
}

/// The circuit message whose serialized form is `s`, if `s` is one.
pub open spec fn spec_decode_circuit_message(s: Seq<u8>) -> Option<SpecCircuitMessage> {
    if s.len() < 8 {
        None
    } else {
        let tag = spec_u32_from_be(s.subrange(0, 4));
        let id = spec_u32_from_be(s.subrange(4, 8));
        let body = s.skip(8);
        if tag == TAG_BEGIN_STREAM {
            match spec_decode_address(body) {
                Some(a) => Some(SpecCircuitMessage::BeginStream { id, destination: a }),
                None => None,
            }
        } else if tag == TAG_STREAM_DATA {
            match spec_one_frame(body) {
                Some(data) => Some(SpecCircuitMessage::StreamData { id, data }),
                None => None,
            }
        } else if tag == TAG_END_STREAM {
            if body.len() == 0 {
                Some(SpecCircuitMessage::EndStream { id })
            } else {
                None
            }
        } else {
            None
        }
    }
}

pub proof fn lemma_circuit_message_round_trip(m: SpecCircuitMessage)
    requires
        m matches SpecCircuitMessage::StreamData { data, .. } ==> data.len() <= MAX_FRAME_PAYLOAD,
    ensures
        spec_decode_circuit_message(spec_encode_circuit_message(m)) == Some(m),
{
    let s = spec_encode_circuit_message(m);
    match m {
        SpecCircuitMessage::BeginStream { id, destination } => {
            assert(s.subrange(0, 4) =~= spec_u32_be(TAG_BEGIN_STREAM));
            assert(s.subrange(4, 8) =~= spec_u32_be(id));
            lemma_u32_be_round_trip(TAG_BEGIN_STREAM);
            lemma_u32_be_round_trip(id);
            assert(s.skip(8) =~= spec_address_bytes(destination));
            crate::addr::lemma_address_round_trip(destination);
        },
        SpecCircuitMessage::StreamData { id, data } => {
            assert(s.subrange(0, 4) =~= spec_u32_be(TAG_STREAM_DATA));
            assert(s.subrange(4, 8) =~= spec_u32_be(id));
            lemma_u32_be_round_trip(TAG_STREAM_DATA);
            lemma_u32_be_round_trip(id);
            assert(s.skip(8) =~= spec_frame(data));
            lemma_one_frame_of_frame(data);
        },
        SpecCircuitMessage::EndStream { id } => {
            assert(s.subrange(0, 4) =~= spec_u32_be(TAG_END_STREAM));
            assert(s.subrange(4, 8) =~= spec_u32_be(id));
            lemma_u32_be_round_trip(TAG_END_STREAM);
            lemma_u32_be_round_trip(id);
            assert(s.skip(8) =~= Seq::<u8>::empty());
        },
    }
}

/// Serializes a circuit message.
pub fn encode_circuit_message(m: &CircuitMessage) -> (r: Vec<u8>)
    requires
        m@ matches SpecCircuitMessage::StreamData { data, .. } ==> data.len()
            <= MAX_FRAME_PAYLOAD,
    ensures
        r@ == spec_encode_circuit_message(m@),
{
    let mut out: Vec<u8> = Vec::new();
    match m {
        CircuitMessage::BeginStream { id, destination } => {
            push_u32_be(&mut out, TAG_BEGIN_STREAM);
            push_u32_be(&mut out, *id);
            push_address(&mut out, destination);
            assert(out@ =~= spec_encode_circuit_message(m@));
        },
        CircuitMessage::StreamData { id, data } => {
            push_u32_be(&mut out, TAG_STREAM_DATA);
            push_u32_be(&mut out, *id);
            push_frame(&mut out, data.as_slice());
            assert(out@ =~= spec_encode_circuit_message(m@));
        },
        CircuitMessage::EndStream { id } => {
            push_u32_be(&mut out, TAG_END_STREAM);
            push_u32_be(&mut out, *id);
            assert(out@ =~= spec_encode_circuit_message(m@));
        },
    }
    out
}

/// Deserializes a circuit message.
pub fn decode_circuit_message(buf: &[u8]) -> (r: Option<CircuitMessage>)
    ensures
        match r {
            Some(m) => spec_decode_circuit_message(buf@) == Some(m@),
            None => spec_decode_circuit_message(buf@) is None,
        },
{
    if buf.len() < 8 {
        return None;
    }
    let tag = read_u32_be(buf, 0);
    let id = read_u32_be(buf, 4);
    let body = &buf[8..buf.len()];
    assert(body@ =~= buf@.skip(8));
    if tag == TAG_BEGIN_STREAM {
        if body.len() != 7 {
            return None;
        }
        match read_address(body, 0) {
            Some(a) => {
                assert(body@.subrange(0, 7) =~= body@);
                Some(CircuitMessage::BeginStream { id, destination: a })
            },
            None => {
                assert(body@.subrange(0, 7) =~= body@);
                None
            },
        }
    } else if tag == TAG_STREAM_DATA {
        match one_frame(body) {
            Some(data) => Some(CircuitMessage::StreamData { id, data }),
            None => None,
        }
    } else if tag == TAG_END_STREAM {
        if body.len() == 0 {
            Some(CircuitMessage::EndStream { id })
        } else {
            None
        }
    } else {
        None
    }
}

} // verus!

verus! {

/// Serialized form of a relay advertisement: wire address, then the
/// public key as one length-prefixed byte field.
pub open spec fn spec_encode_node_info(n: SpecNodeInfo) -> Seq<u8>
    recommends
        n.public_key.len() <= MAX_FRAME_PAYLOAD,
{
    spec_address_bytes(n.address) + spec_frame(n.public_key)
}

/// The advertisement whose serialized form is `s`, if `s` is one.
pub open spec fn spec_decode_node_info(s: Seq<u8>) -> Option<SpecNodeInfo> {
    if s.len() < 7 {
        None
    } else {
        match spec_decode_address(s.subrange(0, 7)) {
            Some(a) => match spec_one_frame(s.skip(7)) {
                Some(k) => Some(SpecNodeInfo { address: a, public_key: k }),
                None => None,
            },
            None => None,
        }
    }
}

pub proof fn lemma_node_info_round_trip(n: SpecNodeInfo)
    requires
        n.public_key.len() <= MAX_FRAME_PAYLOAD,
    ensures
        spec_decode_node_info(spec_encode_node_info(n)) == Some(n),
{
    let s = spec_encode_node_info(n);
    assert(s.subrange(0, 7) =~= spec_address_bytes(n.address));
    crate::addr::lemma_address_round_trip(n.address);
    assert(s.skip(7) =~= spec_frame(n.public_key));
    lemma_one_frame_of_frame(n.public_key);
}

/// Serializes a relay advertisement.
pub fn encode_node_info(n: &NodeInfo) -> (r: Vec<u8>)
    requires
        n.public_key@.len() <= MAX_FRAME_PAYLOAD,
    ensures
        r@ == spec_encode_node_info(n@),
        r@.len() == n.public_key@.len() + 11,
{
    let mut out: Vec<u8> = Vec::new();
    push_address(&mut out, &n.address);
    push_frame(&mut out, n.public_key.as_slice());
    assert(out@ =~= spec_encode_node_info(n@));
    out
}

/// Deserializes a relay advertisement.
pub fn decode_node_info(buf: &[u8]) -> (r: Option<NodeInfo>)
    ensures
        match r {
            Some(n) => spec_decode_node_info(buf@) == Some(n@),
            None => spec_decode_node_info(buf@) is None,
        },
{
    if buf.len() < 7 {
        return None;
    }
    match read_address(buf, 0) {
        Some(a) => {
            let tail = &buf[7..buf.len()];
            assert(tail@ =~= buf@.skip(7));
            match one_frame(tail) {
                Some(k) => Some(NodeInfo { address: a, public_key: k }),
                None => None,
            }
        },
        None => None,
    }
}

/// Variant tag of `DirectoryRequest::Register`.
pub const TAG_REGISTER: u32 = 0;

/// Variant tag of `DirectoryRequest::GetNodes`.
pub const TAG_GET_NODES: u32 = 1;

/// Serialized form of a directory request.
pub open spec fn spec_encode_directory_request(r: SpecDirectoryRequest) -> Seq<u8> {
    match r {
        SpecDirectoryRequest::Register { info, secret } => spec_u32_be(TAG_REGISTER) + spec_frame(
            spec_encode_node_info(info),
        ) + spec_frame(secret),
        SpecDirectoryRequest::GetNodes { secret } => spec_u32_be(TAG_GET_NODES) + spec_frame(
            secret,
        ),
    }
}

/// The directory request whose serialized form is `s`, if `s` is one.
pub open spec fn spec_decode_directory_request(s: Seq<u8>) -> Option<SpecDirectoryRequest> {
    if s.len() < 4 {
        None
    } else {
        let tag = spec_u32_from_be(s.subrange(0, 4));
        let body = s.skip(4);
        if tag == TAG_REGISTER {
            match spec_two_frames(body) {
                Some(fs) => match spec_decode_node_info(fs.0) {
                    Some(info) => Some(SpecDirectoryRequest::Register { info, secret: fs.1 }),
                    None => None,
                },
                None => None,
            }
        } else if tag == TAG_GET_NODES {
            match spec_one_frame(body) {
                Some(secret) => Some(SpecDirectoryRequest::GetNodes { secret }),
                None => None,
            }
        } else {
            None
        }
    }
}

pub proof fn lemma_directory_request_round_trip(r: SpecDirectoryRequest)
    requires
        r matches SpecDirectoryRequest::Register { info, secret } ==> info.public_key.len() + 11
            <= MAX_FRAME_PAYLOAD && secret.len() <= MAX_FRAME_PAYLOAD,
        r matches SpecDirectoryRequest::GetNodes { secret } ==> secret.len() <= MAX_FRAME_PAYLOAD,
    ensures
        spec_decode_directory_request(spec_encode_directory_request(r)) == Some(r),
{
    let s = spec_encode_directory_request(r);
    match r {
        SpecDirectoryRequest::Register { info, secret } => {
            let e = spec_encode_node_info(info);
            assert(e.len() == info.public_key.len() + 11);
            assert(s.subrange(0, 4) =~= spec_u32_be(TAG_REGISTER));
            lemma_u32_be_round_trip(TAG_REGISTER);
            assert(s.skip(4) =~= spec_frame(e) + spec_frame(secret));
            lemma_two_frames_of_frames(e, secret);
            lemma_node_info_round_trip(info);
        },
        SpecDirectoryRequest::GetNodes { secret } => {
            assert(s.subrange(0, 4) =~= spec_u32_be(TAG_GET_NODES));
            lemma_u32_be_round_trip(TAG_GET_NODES);
            assert(s.skip(4) =~= spec_frame(secret));
            lemma_one_frame_of_frame(secret);
        },
    }
}

/// Serializes a directory request.
pub fn encode_directory_request(r: &DirectoryRequest) -> (out: Vec<u8>)
    requires
        r@ matches SpecDirectoryRequest::Register { info, secret } ==> info.public_key.len() + 11
            <= MAX_FRAME_PAYLOAD && secret.len() <= MAX_FRAME_PAYLOAD,
        r@ matches SpecDirectoryRequest::GetNodes { secret } ==> secret.len()
            <= MAX_FRAME_PAYLOAD,
    ensures
        out@ == spec_encode_directory_request(r@),
{
    let mut out: Vec<u8> = Vec::new();
    match r {
        DirectoryRequest::Register { info, secret } => {
            push_u32_be(&mut out, TAG_REGISTER);
            let e = encode_node_info(info);
            push_frame(&mut out, e.as_slice());
            push_frame(&mut out, secret.as_slice());
            assert(out@ =~= spec_encode_directory_request(r@));
        },
        DirectoryRequest::GetNodes { secret } => {
            push_u32_be(&mut out, TAG_GET_NODES);
            push_frame(&mut out, secret.as_slice());
            assert(out@ =~= spec_encode_directory_request(r@));
        },
    }
    out
}

/// Deserializes a directory request.
pub fn decode_directory_request(buf: &[u8]) -> (r: Option<DirectoryRequest>)
    ensures
        match r {
            Some(q) => spec_decode_directory_request(buf@) == Some(q@),
            None => spec_decode_directory_request(buf@) is None,
        },
{
    if buf.len() < 4 {
        return None;
    }
    let tag = read_u32_be(buf, 0);
    let body = &buf[4..buf.len()];
    assert(body@ =~= buf@.skip(4));
    if tag == TAG_REGISTER {
        match two_frames(body) {
            Some((f1, f2)) => match decode_node_info(f1.as_slice()) {
                Some(info) => Some(DirectoryRequest::Register { info, secret: f2 }),
                None => None,
            },
            None => None,
        }
    } else if tag == TAG_GET_NODES {
        match one_frame(body) {
            Some(secret) => Some(DirectoryRequest::GetNodes { secret }),
            None => None,
        }
    } else {
        None
    }
}

} // verus!

verus! {

/// Variant tag of `DirectoryResponse::Ack`.
pub const TAG_ACK: u32 = 0;

/// Variant tag of `DirectoryResponse::NodeList`.
pub const TAG_NODE_LIST: u32 = 1;

/// Serialized form of a list of advertisements: each one framed, in order.
pub open spec fn spec_encode_node_seq(nodes: Seq<SpecNodeInfo>) -> Seq<u8>
    decreases nodes.len(),
{
    if nodes.len() == 0 {
        Seq::<u8>::empty()
    } else {
        spec_frame(spec_encode_node_info(nodes[0])) + spec_encode_node_seq(nodes.drop_first())
    }
}

/// The `count` advertisements whose serialized forms span `s` exactly.
pub open spec fn spec_decode_node_seq(s: Seq<u8>, count: nat) -> Option<Seq<SpecNodeInfo>>
    decreases count,
{
    if count == 0 {
        if s.len() == 0 {
            Some(Seq::<SpecNodeInfo>::empty())
        } else {
            None
        }
    } else {
        match spec_take_frame(s) {
            Some(fc) => match spec_decode_node_info(fc.0) {
                Some(n) => match spec_decode_node_seq(s.skip(fc.1), (count - 1) as nat) {
                    Some(rest) => Some(seq![n] + rest),
                    None => None,
                },
                None => None,
            },
            None => None,
        }
    }
}

#[verifier::rlimit(100)]
pub proof fn lemma_node_seq_round_trip(nodes: Seq<SpecNodeInfo>)
    requires
        forall|i: int|
            0 <= i < nodes.len() ==> (#[trigger] nodes[i]).public_key.len() + 11
                <= MAX_FRAME_PAYLOAD,
    ensures
        spec_decode_node_seq(spec_encode_node_seq(nodes), nodes.len()) == Some(nodes),
    decreases nodes.len(),
{
    if nodes.len() == 0 {
        assert(spec_encode_node_seq(nodes).len() == 0);
    } else {
        let first = nodes[0];
        let tail = nodes.drop_first();
        let e0 = spec_encode_node_info(first);
        let rest = spec_encode_node_seq(tail);
        let s = spec_encode_node_seq(nodes);
        assert(first.public_key.len() + 11 <= MAX_FRAME_PAYLOAD);
        assert(e0.len() == first.public_key.len() + 11) by {
            assert(spec_address_bytes(first.address).len() == 7);
            assert(spec_frame(first.public_key).len() == 4 + first.public_key.len());
        }
        assert(s == spec_frame(e0) + rest);
        crate::bytes::lemma_take_frame_of_frame(e0, rest);
        assert(spec_take_frame(s) == Some((e0, 4 + e0.len() as int)));
        lemma_node_info_round_trip(first);
        assert(s.skip(4 + e0.len() as int) =~= rest) by {
            assert(s == spec_frame(e0) + rest && spec_frame(e0).len() == 4 + e0.len());
        }
        assert(forall|i: int|
            0 <= i < tail.len() ==> (#[trigger] tail[i]).public_key.len() + 11
                <= MAX_FRAME_PAYLOAD) by {
            assert(forall|i: int| 0 <= i < tail.len() ==> #[trigger] tail[i] == nodes[i + 1]);
        }
        lemma_node_seq_round_trip(tail);
        assert(spec_decode_node_seq(rest, tail.len()) == Some(tail));
        assert(seq![first] + tail =~= nodes);
        assert(spec_decode_node_seq(s, nodes.len()) == Some(seq![first] + tail));
    }
}

/// Appending one advertisement extends the serialized list at its end.
pub proof fn lemma_node_seq_snoc(nodes: Seq<SpecNodeInfo>, n: SpecNodeInfo)
    ensures
        spec_encode_node_seq(nodes.push(n)) == spec_encode_node_seq(nodes) + spec_frame(
            spec_encode_node_info(n),
        ),
    decreases nodes.len(),
{
    if nodes.len() == 0 {
        assert(nodes.push(n)[0] == n);
        assert(nodes.push(n).drop_first() =~= Seq::<SpecNodeInfo>::empty());
        assert(spec_encode_node_seq(Seq::<SpecNodeInfo>::empty()) =~= Seq::<u8>::empty());
        assert(spec_encode_node_seq(nodes) =~= Seq::<u8>::empty());
        assert(spec_encode_node_seq(nodes.push(n)) =~= spec_encode_node_seq(nodes) + spec_frame(
            spec_encode_node_info(n),
        ));
    } else {
        let p = nodes.push(n);
        assert(p[0] == nodes[0]);
        assert(p.drop_first() =~= nodes.drop_first().push(n));
        lemma_node_seq_snoc(nodes.drop_first(), n);
        assert(spec_encode_node_seq(p) == spec_frame(spec_encode_node_info(p[0]))
            + spec_encode_node_seq(p.drop_first()));
        assert(spec_encode_node_seq(nodes) == spec_frame(spec_encode_node_info(nodes[0]))
            + spec_encode_node_seq(nodes.drop_first()));
        assert(spec_encode_node_seq(p) =~= spec_encode_node_seq(nodes) + spec_frame(
            spec_encode_node_info(n),
        ));
    }
}

/// Serialized form of a directory response.
pub open spec fn spec_encode_directory_response(r: SpecDirectoryResponse) -> Seq<u8> {
    match r {
        SpecDirectoryResponse::Ack => spec_u32_be(TAG_ACK),
        SpecDirectoryResponse::NodeList(nodes) => spec_u32_be(TAG_NODE_LIST) + spec_u32_be(
            nodes.len() as u32,
        ) + spec_encode_node_seq(nodes),
    }
}

/// The directory response whose serialized form is `s`, if `s` is one.
pub open spec fn spec_decode_directory_response(s: Seq<u8>) -> Option<SpecDirectoryResponse> {
    if s.len() < 4 {
        None
    } else {
        let tag = spec_u32_from_be(s.subrange(0, 4));
        let body = s.skip(4);
        if tag == TAG_ACK {
            if body.len() == 0 {
                Some(SpecDirectoryResponse::Ack)
            } else {
                None
            }
        } else if tag == TAG_NODE_LIST {
            if body.len() < 4 {
                None
            } else {
                let count = spec_u32_from_be(body.subrange(0, 4));
                match spec_decode_node_seq(body.skip(4), count as nat) {
                    Some(nodes) => Some(SpecDirectoryResponse::NodeList(nodes)),
                    None => None,
                }
            }
        } else {
            None
        }
    }
}

pub proof fn lemma_directory_response_round_trip(r: SpecDirectoryResponse)
    requires
        r matches SpecDirectoryResponse::NodeList(nodes) ==> nodes.len() <= 0xffff_ffff
            && (forall|i: int|
            0 <= i < nodes.len() ==> (#[trigger] nodes[i]).public_key.len() + 11
                <= MAX_FRAME_PAYLOAD),
    ensures
        spec_decode_directory_response(spec_encode_directory_response(r)) == Some(r),
{
    let s = spec_encode_directory_response(r);
    match r {
        SpecDirectoryResponse::Ack => {
            assert(s.subrange(0, 4) =~= spec_u32_be(TAG_ACK));
            lemma_u32_be_round_trip(TAG_ACK);
            assert(s.skip(4) =~= Seq::<u8>::empty());
        },
        SpecDirectoryResponse::NodeList(nodes) => {
            assert(s.subrange(0, 4) =~= spec_u32_be(TAG_NODE_LIST));
            lemma_u32_be_round_trip(TAG_NODE_LIST);
            let body = s.skip(4);
            assert(body.subrange(0, 4) =~= spec_u32_be(nodes.len() as u32));
            lemma_u32_be_round_trip(nodes.len() as u32);
            assert(body.skip(4) =~= spec_encode_node_seq(nodes));
            lemma_node_seq_round_trip(nodes);
        },
    }
}

/// Serializes a `NodeList` response carrying `nodes`, borrowing them.
#[verifier::loop_isolation(false)]
pub fn encode_node_list_response(nodes: &Vec<NodeInfo>) -> (out: Vec<u8>)
    requires
        nodes@.len() <= 0xffff_ffff,
        forall|i: int|
            0 <= i < nodes@.len() ==> (#[trigger] nodes@[i]@).public_key.len() + 11
                <= MAX_FRAME_PAYLOAD,
    ensures
        out@ == spec_encode_directory_response(
            SpecDirectoryResponse::NodeList(spec_node_list_view(nodes@)),
        ),
{
    let mut out: Vec<u8> = Vec::new();
    push_u32_be(&mut out, TAG_NODE_LIST);
    push_u32_be(&mut out, nodes.len() as u32);
    let ghost views = spec_node_list_view(nodes@);
    let ghost header = out@;
    let mut i: usize = 0;
    while i < nodes.len()
        invariant
            i <= nodes.len(),
            out@ == header + spec_encode_node_seq(views.subrange(0, i as int)),
        decreases nodes@.len() - i,
    {
        assert(nodes@[i as int]@ == views[i as int]);
        let e = encode_node_info(&nodes[i]);
        push_frame(&mut out, e.as_slice());
        proof {
            lemma_node_seq_snoc(views.subrange(0, i as int), views[i as int]);
            assert(views.subrange(0, i as int).push(views[i as int]) =~= views.subrange(0, i + 1));
            assert(out@ =~= header + spec_encode_node_seq(views.subrange(0, i + 1)));
        }
        i = i + 1;
    }
    assert(views.subrange(0, nodes@.len() as int) =~= views);
    assert(out@ =~= spec_encode_directory_response(
        SpecDirectoryResponse::NodeList(spec_node_list_view(nodes@)),
    ));
    out
}

/// Serializes a directory response.
pub fn encode_directory_response(r: &DirectoryResponse) -> (out: Vec<u8>)
    requires
        r@ matches SpecDirectoryResponse::NodeList(nodes) ==> nodes.len() <= 0xffff_ffff && (
        forall|i: int|
            0 <= i < nodes.len() ==> (#[trigger] nodes[i]).public_key.len() + 11
                <= MAX_FRAME_PAYLOAD),
    ensures
        out@ == spec_encode_directory_response(r@),
{
    match r {
        DirectoryResponse::Ack => {
            let mut out: Vec<u8> = Vec::new();
            push_u32_be(&mut out, TAG_ACK);
            assert(out@ =~= spec_encode_directory_response(r@));
            out
        },
        DirectoryResponse::NodeList(nodes) => {
            proof {
                let views = spec_node_list_view(nodes@);
                assert(forall|i: int| 0 <= i < nodes@.len() ==> views[i] == #[trigger] nodes@[i]@);
                assert(forall|i: int|
                    0 <= i < nodes@.len() ==> (#[trigger] nodes@[i]@).public_key.len() + 11
                        <= MAX_FRAME_PAYLOAD) by {
                    assert(forall|i: int|
                        0 <= i < nodes@.len() ==> nodes@[i]@ == #[trigger] views[i]);
                }
            }
            encode_node_list_response(nodes)
        },
    }
}

/// Deserializes a directory response.
#[verifier::loop_isolation(false)]
pub fn decode_directory_response(buf: &[u8]) -> (r: Option<DirectoryResponse>)
    ensures
        match r {
            Some(q) => spec_decode_directory_response(buf@) == Some(q@),
            None => spec_decode_directory_response(buf@) is None,
        },
{
    if buf.len() < 4 {
        return None;
    }
    let tag = read_u32_be(buf, 0);
    let ghost body = buf@.skip(4);
    if tag == TAG_ACK {
        if buf.len() == 4 {
            return Some(DirectoryResponse::Ack);
        } else {
            return None;
        }
    }
    if tag != TAG_NODE_LIST {
        return None;
    }
    if buf.len() < 8 {
        return None;
    }
    let count = read_u32_be(buf, 4);
    proof {
        assert(body.subrange(0, 4) =~= buf@.subrange(4, 8));
    }
    let ghost tail0 = body.skip(4);
    let mut nodes: Vec<NodeInfo> = Vec::new();
    let mut off: usize = 8;
    let mut k: u32 = 0;
    proof {
        assert(buf@.skip(8) =~= tail0);
    }
    while k < count
        invariant
            k <= count,
            8 <= off <= buf@.len(),
            nodes@.len() == k as nat,
            buf@.skip(8) == tail0,
            match spec_decode_node_seq(buf@.skip(off as int), (count - k) as nat) {
                Some(rest) => spec_decode_node_seq(tail0, count as nat) == Some(
                    spec_node_list_view(nodes@) + rest,
                ),
                None => spec_decode_node_seq(tail0, count as nat) is None,
            },
        decreases count - k,
    {
        let slice = &buf[off..buf.len()];
        assert(slice@ =~= buf@.skip(off as int));
        match crate::bytes::take_frame(slice) {
            Some((f, c)) => {
                match decode_node_info(f.as_slice()) {
                    Some(n) => {
                        proof {
                            assert(buf@.skip(off as int).skip(c as int) =~= buf@.skip(
                                off + c as int,
                            ));
                            assert(spec_node_list_view(nodes@.push(n)) =~= spec_node_list_view(
                                nodes@,
                            ) + seq![n@]);
                            assert(spec_node_list_view(nodes@) + (seq![n@]
                                + match spec_decode_node_seq(
                                buf@.skip(off + c as int),
                                (count - k - 1) as nat,
                            ) {
                                Some(rest2) => rest2,
                                None => Seq::<SpecNodeInfo>::empty(),
                            }) =~= (spec_node_list_view(nodes@) + seq![n@]) + match
                                spec_decode_node_seq(
                                buf@.skip(off + c as int),
                                (count - k - 1) as nat,
                            ) {
                                Some(rest2) => rest2,
                                None => Seq::<SpecNodeInfo>::empty(),
                            });
                        }
                        nodes.push(n);
                        off = off + c;
                        k = k + 1;
                    },
                    None => {
                        return None;
                    },
                }
            },
            None => {
                return None;
            },
        }
    }
    if off != buf.len() {
        assert(buf@.skip(off as int).len() != 0);
        return None;
    }
    assert(buf@.skip(off as int).len() == 0);
    assert(spec_node_list_view(nodes@) + Seq::<SpecNodeInfo>::empty() =~= spec_node_list_view(
        nodes@,
    ));
    Some(DirectoryResponse::NodeList(nodes))
}

} // verus!

verus! {

/// Serialized form of a sequence of circuit messages: each one framed,
/// in order, as they travel over the established circuit.
pub open spec fn spec_encode_message_stream(msgs: Seq<SpecCircuitMessage>) -> Seq<u8>
    decreases msgs.len(),
{
    if msgs.len() == 0 {
        Seq::<u8>::empty()
    } else {
        spec_frame(spec_encode_circuit_message(msgs[0])) + spec_encode_message_stream(
            msgs.drop_first(),
        )
    }
}

/// The sequence of circuit messages whose framed forms span `s` exactly.
pub open spec fn spec_decode_message_stream(s: Seq<u8>) -> Option<Seq<SpecCircuitMessage>>
    decreases s.len(),
{
    if s.len() == 0 {
        Some(Seq::<SpecCircuitMessage>::empty())
    } else if s.len() < 4 {
        None
    } else {
        let n = spec_u32_from_be(s.subrange(0, 4)) as int;
        if s.len() < 4 + n {
            None
        } else {
            match spec_decode_circuit_message(s.subrange(4, 4 + n)) {
                Some(m) => match spec_decode_message_stream(s.skip(4 + n)) {
                    Some(rest) => Some(seq![m] + rest),
                    None => None,
                },
                None => None,
            }
        }
    }
}

/// Law: encoding any sequence of circuit messages as length-prefixed
/// frames and decoding the result yields the original sequence in order.
pub proof fn lemma_message_stream_round_trip(msgs: Seq<SpecCircuitMessage>)
    requires
        forall|i: int|
            0 <= i < msgs.len() ==> (#[trigger] msgs[i] matches
                SpecCircuitMessage::StreamData { data, .. } ==> data.len() + 12
                <= MAX_FRAME_PAYLOAD),
    ensures
        spec_decode_message_stream(spec_encode_message_stream(msgs)) == Some(msgs),
    decreases msgs.len(),
{
    if msgs.len() == 0 {
    } else {
        let e0 = spec_encode_circuit_message(msgs[0]);
        assert(e0.len() <= MAX_FRAME_PAYLOAD) by {
            assert(msgs[0] matches SpecCircuitMessage::StreamData { data, .. } ==> data.len() + 12
                <= MAX_FRAME_PAYLOAD);
        }
        let rest = spec_encode_message_stream(msgs.drop_first());
        let s = spec_encode_message_stream(msgs);
        assert(s == spec_frame(e0) + rest);
        assert(s.len() >= 4);
        assert(s.subrange(0, 4) =~= spec_u32_be(e0.len() as u32));
        lemma_u32_be_round_trip(e0.len() as u32);
        assert(s.subrange(4, 4 + e0.len() as int) =~= e0);
        lemma_circuit_message_round_trip(msgs[0]);
        assert(s.skip(4 + e0.len() as int) =~= rest);
        assert(forall|i: int|
            0 <= i < msgs.drop_first().len() ==> #[trigger] msgs.drop_first()[i] == msgs[i + 1]);
        lemma_message_stream_round_trip(msgs.drop_first());
        assert(seq![msgs[0]] + msgs.drop_first() =~= msgs);
    }
}

/// Appending one message extends the serialized stream at its end.
pub proof fn lemma_message_stream_snoc(msgs: Seq<SpecCircuitMessage>, m: SpecCircuitMessage)
    ensures
        spec_encode_message_stream(msgs.push(m)) == spec_encode_message_stream(msgs) + spec_frame(
            spec_encode_circuit_message(m),
        ),
    decreases msgs.len(),
{
    if msgs.len() == 0 {
        assert(msgs.push(m)[0] == m);
        assert(msgs.push(m).drop_first() =~= Seq::<SpecCircuitMessage>::empty());
        assert(spec_encode_message_stream(Seq::<SpecCircuitMessage>::empty()) =~= Seq::<
            u8,
        >::empty());
        assert(spec_encode_message_stream(msgs) =~= Seq::<u8>::empty());
        assert(spec_encode_message_stream(msgs.push(m)) =~= spec_encode_message_stream(msgs)
            + spec_frame(spec_encode_circuit_message(m)));
    } else {
        let p = msgs.push(m);
        assert(p[0] == msgs[0]);
        assert(p.drop_first() =~= msgs.drop_first().push(m));
        lemma_message_stream_snoc(msgs.drop_first(), m);
        assert(spec_encode_message_stream(p) == spec_frame(spec_encode_circuit_message(p[0]))
            + spec_encode_message_stream(p.drop_first()));
        assert(spec_encode_message_stream(msgs) == spec_frame(spec_encode_circuit_message(msgs[0]))
            + spec_encode_message_stream(msgs.drop_first()));
        assert(spec_encode_message_stream(p) =~= spec_encode_message_stream(msgs) + spec_frame(
            spec_encode_circuit_message(m),
        ));
    }
}

/// Serializes a sequence of circuit messages as consecutive frames.
#[verifier::loop_isolation(false)]
pub fn encode_message_stream(msgs: &Vec<CircuitMessage>) -> (out: Vec<u8>)
    requires
        forall|i: int|
            0 <= i < msgs@.len() ==> (#[trigger] msgs@[i]@ matches
                SpecCircuitMessage::StreamData { data, .. } ==> data.len() + 12
                <= MAX_FRAME_PAYLOAD),
    ensures
        out@ == spec_encode_message_stream(spec_message_views(msgs@)),
{
    let ghost views = spec_message_views(msgs@);
    let mut out: Vec<u8> = Vec::new();
    let mut i: usize = 0;
    assert(views.subrange(0, 0) =~= Seq::<SpecCircuitMessage>::empty());
    while i < msgs.len()
        invariant
            i <= msgs@.len(),
            out@ == spec_encode_message_stream(views.subrange(0, i as int)),
        decreases msgs@.len() - i,
    {
        assert(msgs@[i as int]@ == views[i as int]);
        let e = encode_circuit_message(&msgs[i]);
        push_frame(&mut out, e.as_slice());
        proof {
            lemma_message_stream_snoc(views.subrange(0, i as int), views[i as int]);
            assert(views.subrange(0, i as int).push(views[i as int]) =~= views.subrange(0, i + 1));
        }
        i = i + 1;
    }
    assert(views.subrange(0, msgs@.len() as int) =~= views);
    out
}

/// Deserializes a byte stream of consecutive frames back into the
/// sequence of circuit messages it carries.
#[verifier::loop_isolation(false)]
pub fn decode_message_stream(buf: &[u8]) -> (r: Option<Vec<CircuitMessage>>)
    ensures
        match r {
            Some(msgs) => spec_decode_message_stream(buf@) == Some(spec_message_views(msgs@)),
            None => spec_decode_message_stream(buf@) is None,
        },
{
    let mut msgs: Vec<CircuitMessage> = Vec::new();
    let mut off: usize = 0;
    assert(buf@.skip(0) =~= buf@);
    while off < buf.len()
        invariant
            off <= buf@.len(),
            match spec_decode_message_stream(buf@.skip(off as int)) {
                Some(rest) => spec_decode_message_stream(buf@) == Some(
                    spec_message_views(msgs@) + rest,
                ),
                None => spec_decode_message_stream(buf@) is None,
            },
        decreases buf@.len() - off,
    {
        let slice = &buf[off..buf.len()];
        assert(slice@ =~= buf@.skip(off as int));
        match crate::bytes::take_frame(slice) {
            Some((f, c)) => {
                match decode_circuit_message(f.as_slice()) {
                    Some(m) => {
                        proof {
                            assert(buf@.skip(off as int).skip(c as int) =~= buf@.skip(
                                off + c as int,
                            ));
                            assert(buf@.skip(off as int).subrange(4, c as int) =~= f@);
                            assert(spec_message_views(msgs@.push(m)) =~= spec_message_views(msgs@)
                                + seq![m@]);
                            assert(forall|rest2: Seq<SpecCircuitMessage>|
                                spec_message_views(msgs@) + (seq![m@] + rest2) =~= (
                                spec_message_views(msgs@) + seq![m@]) + rest2);
                        }
                        msgs.push(m);
                        off = off + c;
                    },
                    None => {
                        return None;
                    },
                }
            },
            None => {
                return None;
            },
        }
    }
    assert(buf@.skip(off as int).len() == 0);
    assert(spec_message_views(msgs@) + Seq::<SpecCircuitMessage>::empty() =~= spec_message_views(
        msgs@,
    ));
    Some(msgs)
}

} // verus!
