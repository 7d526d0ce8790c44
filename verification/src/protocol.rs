//! The data model spoken on the wire: per-hop handshake, onion layers,
//! end-to-end circuit messages, and relay advertisements.

use vstd::prelude::*;
use crate::addr::Address;

verus! {

/// Identifier of one multiplexed stream; allocated only by the proxy.
pub type StreamID = u32;

/// The 32-byte AES session key, sealed to one hop's RSA public key.
pub struct HandshakeMessage {
    pub encrypted_aes_key: Vec<u8>,
}

impl View for HandshakeMessage {
    type V = Seq<u8>;

    open spec fn view(&self) -> Seq<u8> {
        self.encrypted_aes_key@
    }
}

/// One peeled onion layer: either the next hop and the bytes to forward
/// to it verbatim, or the terminal exit marker.
#[derive(Debug, PartialEq, Eq)]
pub enum OnionLayer {
    Relay { next_hop: Vec<u8>, payload: Vec<u8> },
    Exit,
}

/// Mathematical value of an [`OnionLayer`].
pub enum SpecOnionLayer {
    Relay { next_hop: Seq<u8>, payload: Seq<u8> },
    Exit,
}

impl View for OnionLayer {
    type V = SpecOnionLayer;

    open spec fn view(&self) -> SpecOnionLayer {
        match self {
            OnionLayer::Relay { next_hop, payload } => SpecOnionLayer::Relay {
                next_hop: next_hop@,
                payload: payload@,
            },
            OnionLayer::Exit => SpecOnionLayer::Exit,
        }
    }
}

/// The end-to-end message type spoken between proxy and exit.
#[derive(Debug, Clone, PartialEq, Eq)]
pub enum CircuitMessage {
    BeginStream { id: StreamID, destination: Address },
    StreamData { id: StreamID, data: Vec<u8> },
    EndStream { id: StreamID },
}

/// Mathematical value of a [`CircuitMessage`].
pub enum SpecCircuitMessage {
    BeginStream { id: StreamID, destination: Address },
    StreamData { id: StreamID, data: Seq<u8> },
    EndStream { id: StreamID },
}

impl View for CircuitMessage {
    type V = SpecCircuitMessage;

    open spec fn view(&self) -> SpecCircuitMessage {
        match self {
            CircuitMessage::BeginStream { id, destination } => SpecCircuitMessage::BeginStream {
                id: *id,
                destination: *destination,
            },
            CircuitMessage::StreamData { id, data } => SpecCircuitMessage::StreamData {
                id: *id,
                data: data@,
            },
            CircuitMessage::EndStream { id } => SpecCircuitMessage::EndStream { id: *id },
        }
    }
}

/// The element-wise view of a list of circuit messages.
pub open spec fn spec_message_views(msgs: Seq<CircuitMessage>) -> Seq<SpecCircuitMessage> {
    Seq::new(msgs.len(), |i: int| msgs[i]@)
}

/// A relay advertisement: where it listens and its public key
/// (SubjectPublicKeyInfo PEM bytes).
#[derive(Debug, Clone)]
pub struct NodeInfo {
    pub address: Address,
    pub public_key: Vec<u8>,
}

/// Mathematical value of a [`NodeInfo`].
pub struct SpecNodeInfo {
    pub address: Address,
    pub public_key: Seq<u8>,
}

impl View for NodeInfo {
    type V = SpecNodeInfo;

    open spec fn view(&self) -> SpecNodeInfo {
        SpecNodeInfo { address: self.address, public_key: self.public_key@ }
    }
}

/// A request on the directory control channel.
#[derive(Debug)]
pub enum DirectoryRequest {
    Register { info: NodeInfo, secret: Vec<u8> },
    GetNodes { secret: Vec<u8> },
}

/// Mathematical value of a [`DirectoryRequest`].
pub enum SpecDirectoryRequest {
    Register { info: SpecNodeInfo, secret: Seq<u8> },
    GetNodes { secret: Seq<u8> },
}

impl View for DirectoryRequest {
    type V = SpecDirectoryRequest;

    open spec fn view(&self) -> SpecDirectoryRequest {
        match self {
            DirectoryRequest::Register { info, secret } => SpecDirectoryRequest::Register {
                info: info@,
                secret: secret@,
            },
            DirectoryRequest::GetNodes { secret } => SpecDirectoryRequest::GetNodes {
                secret: secret@,
            },
        }
    }
}

/// A reply on the directory control channel.
#[derive(Debug)]
pub enum DirectoryResponse {
    Ack,
    NodeList(Vec<NodeInfo>),
}

/// Mathematical value of a [`DirectoryResponse`].
pub enum SpecDirectoryResponse {
    Ack,
    NodeList(Seq<SpecNodeInfo>),
}

/// The element-wise view of a list of advertisements.
pub open spec fn spec_node_list_view(nodes: Seq<NodeInfo>) -> Seq<SpecNodeInfo> {
    Seq::new(nodes.len(), |i: int| nodes[i]@)
}

impl View for DirectoryResponse {
    type V = SpecDirectoryResponse;

    open spec fn view(&self) -> SpecDirectoryResponse {
        match self {
            DirectoryResponse::Ack => SpecDirectoryResponse::Ack,
            DirectoryResponse::NodeList(nodes) => SpecDirectoryResponse::NodeList(
                spec_node_list_view(nodes@),
            ),
        }
    }
}

} // verus!
