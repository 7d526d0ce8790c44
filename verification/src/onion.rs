//! Building and peeling the layered onion.
//!
//! The proxy builds, innermost layer first: the exit marker, then for
//! each earlier hop a fresh AES session key sealed to that hop's RSA key
//! and the previous payload encrypted under it. Each relay peels one
//! layer: it recovers its session key from the handshake frame, splits
//! the trailing 12-byte nonce off the onion frame, decrypts, and decodes
//! an [`OnionLayer`].

use vstd::prelude::*;
use crate::addr::spec_address_text;
use crate::bytes::{MAX_FRAME_PAYLOAD, spec_frame, push_frame, spec_two_frames};
use crate::codec::{
    spec_decode_handshake, encode_handshake, decode_handshake, spec_decode_onion_layer,
    encode_onion_layer, decode_onion_layer, lemma_handshake_round_trip,
    lemma_onion_layer_round_trip,
};
use crate::addr::{MAX_ADDRESS_TEXT_LEN, lemma_address_text_len};
use crate::crypto::{
    AES_KEY_LEN, AES_NONCE_LEN, MAX_AES_PLAINTEXT, MAX_RSA_MODULUS_LEN, aead_open_of, rsa_open_of,
    rsa_public_pem_of, rsa_seals, rsa_sealed_len, generate_aes_key, aes_encrypt, aes_decrypt,
    rsa_encrypt, rsa_decrypt,
};
use crate::errors::{CircuitError, ProtocolError};
use crate::protocol::{
    HandshakeMessage, OnionLayer, SpecOnionLayer, NodeInfo, SpecNodeInfo, spec_node_list_view,
};

verus! {

/// The two frames sent to a hop when a circuit is set up: FRAME_1 is the
/// serialized handshake, FRAME_2 the encrypted onion blob whose last 12
/// bytes are the GCM nonce.
pub struct OnionFrames {
    pub handshake: Vec<u8>,
    pub onion: Vec<u8>,
}

/// One hop as a proof sees it: the relay's private key (PKCS#8 DER) and
/// the textual address under which the previous relay dials it.
pub struct SpecHop {
    pub priv_der: Seq<u8>,
    pub addr_text: Seq<u8>,
}

/// The plaintext a relay holding `priv_der` recovers from the two frames
/// `f1` (handshake) and `f2` (onion blob), if anything.
pub open spec fn spec_open_frames(priv_der: Seq<u8>, f1: Seq<u8>, f2: Seq<u8>) -> Option<Seq<u8>> {
    match spec_decode_handshake(f1) {
        Some(ek) => match rsa_open_of(priv_der, ek) {
            Some(key) => if key.len() == AES_KEY_LEN && f2.len() >= AES_NONCE_LEN {
                aead_open_of(
                    key,
                    f2.skip(f2.len() - AES_NONCE_LEN),
                    f2.take(f2.len() - AES_NONCE_LEN),
                )
            } else {
                None
            },
            None => None,
        },
        None => None,
    }
}

/// The exact outcome of one relay's peeling step, errors included:
/// a frame that fails at the handshake stage is `BadHandshake`, one that
/// fails at decryption or layer decoding is `BadLayer`.
pub open spec fn spec_peel(priv_der: Seq<u8>, f1: Seq<u8>, f2: Seq<u8>) -> Result<
    SpecOnionLayer,
    ProtocolError,
> {
    match spec_decode_handshake(f1) {
        Some(ek) => match rsa_open_of(priv_der, ek) {
            Some(key) => if key.len() != AES_KEY_LEN {
                Err(ProtocolError::BadHandshake)
            } else if f2.len() < AES_NONCE_LEN {
                Err(ProtocolError::BadLayer)
            } else {
                match aead_open_of(
                    key,
                    f2.skip(f2.len() - AES_NONCE_LEN),
                    f2.take(f2.len() - AES_NONCE_LEN),
                ) {
                    Some(plain) => match spec_decode_onion_layer(plain) {
                        Some(l) => Ok(l),
                        None => Err(ProtocolError::BadLayer),
                    },
                    None => Err(ProtocolError::BadLayer),
                }
            },
            None => Err(ProtocolError::BadHandshake),
        },
        None => Err(ProtocolError::BadHandshake),
    }
}

/// `plain` is the plaintext some relay just recovered; `rest` are the
/// hops beyond it. Holds when `plain` decodes to `Exit` exactly at the
/// last hop, and at every earlier hop decodes to a `Relay` layer naming
/// the next hop's address whose payload is the next hop's two frames,
/// which that hop in turn opens and peels.
pub open spec fn spec_plain_peels(rest: Seq<SpecHop>, plain: Seq<u8>) -> bool
    decreases rest.len(),
{
    if rest.len() == 0 {
        spec_decode_onion_layer(plain) == Some(SpecOnionLayer::Exit)
    } else {
        match spec_decode_onion_layer(plain) {
            Some(SpecOnionLayer::Relay { next_hop, payload }) => {
                &&& next_hop == rest[0].addr_text
                &&& match spec_two_frames(payload) {
                    Some(ff) => match spec_open_frames(rest[0].priv_der, ff.0, ff.1) {
                        Some(inner) => spec_plain_peels(rest.drop_first(), inner),
                        None => false,
                    },
                    None => false,
                }
            },
            _ => false,
        }
    }
}

/// The entry frames `f1`, `f2` peel correctly through all of `hops`:
/// every relay recovers its session key and finds a `Relay` layer naming
/// its successor, and the last finds `Exit`.
pub open spec fn spec_onion_peels(hops: Seq<SpecHop>, f1: Seq<u8>, f2: Seq<u8>) -> bool {
    hops.len() >= 1 && match spec_open_frames(hops[0].priv_der, f1, f2) {
        Some(plain) => spec_plain_peels(hops.drop_first(), plain),
        None => false,
    }
}

/// `hops` are private keys and addresses that belong to the advertised
/// circuit `nodes`, hop for hop.
pub open spec fn spec_hops_match(hops: Seq<SpecHop>, nodes: Seq<SpecNodeInfo>) -> bool {
    &&& hops.len() == nodes.len()
    &&& forall|i: int|
        0 <= i < hops.len() ==> rsa_public_pem_of((#[trigger] hops[i]).priv_der)
            == nodes[i].public_key
    &&& forall|i: int|
        0 <= i < hops.len() ==> (#[trigger] hops[i]).addr_text == spec_address_text(
            nodes[i].address,
        )
}

/// The public key can seal a 32-byte session key: its PEM parses and its
/// modulus has room for the key and the 11 padding bytes.
pub open spec fn spec_key_seals(pub_pem: Seq<u8>) -> bool {
    rsa_seals(pub_pem) && AES_KEY_LEN + 11 <= rsa_sealed_len(pub_pem)
}

/// Most bytes one layer adds to a payload: the sealed key (at most the
/// largest accepted modulus, 512), the textual next-hop address (at most
/// 21), and 52 bytes of tags, length prefixes, AES tag and nonce.
pub const MAX_LAYER_GROWTH: usize = 585;

/// Circuits up to this long are promised to build: every intermediate
/// payload then stays far below the AES plaintext bound.
pub const MAX_BUILD_HOPS: usize = 1024;

/// Copies a 32-byte vector into an AES key array.
fn key_from_vec(v: &Vec<u8>) -> (r: [u8; AES_KEY_LEN])
    requires
        v@.len() == AES_KEY_LEN,
    ensures
        r@ == v@,
{
    let mut key = [0u8; AES_KEY_LEN];
    let mut i: usize = 0;
    while i < AES_KEY_LEN
        invariant
            i <= AES_KEY_LEN,
            v@.len() == AES_KEY_LEN,
            key@.len() == AES_KEY_LEN,
            forall|k: int| 0 <= k < i ==> key@[k] == v@[k],
        decreases AES_KEY_LEN - i,
    {
        key[i] = v[i];
        i = i + 1;
    }
    assert(key@ =~= v@);
    key
}

/// Peels one onion layer: recovers the session key from the handshake
/// frame, splits the trailing nonce off the onion frame, decrypts, and
/// decodes the layer. Returns exactly the errors `spec_peel` assigns.
pub fn peel_onion(priv_der: &[u8], handshake_frame: &[u8], onion_frame: &[u8]) -> (r: Result<
    OnionLayer,
    ProtocolError,
>)
    ensures
        match r {
            Ok(l) => spec_peel(priv_der@, handshake_frame@, onion_frame@) == Ok::<
                SpecOnionLayer,
                ProtocolError,
            >(l@),
            Err(e) => spec_peel(priv_der@, handshake_frame@, onion_frame@) == Err::<
                SpecOnionLayer,
                ProtocolError,
            >(e),
        },
{
    let hs = match decode_handshake(handshake_frame) {
        Some(h) => h,
        None => {
            return Err(ProtocolError::BadHandshake);
        },
    };
    let key_bytes = match rsa_decrypt(priv_der, hs.encrypted_aes_key.as_slice()) {
        Ok(k) => k,
        Err(_) => {
            return Err(ProtocolError::BadHandshake);
        },
    };
    if key_bytes.len() != AES_KEY_LEN {
        return Err(ProtocolError::BadHandshake);
    }
    let key = key_from_vec(&key_bytes);
    if onion_frame.len() < AES_NONCE_LEN {
        return Err(ProtocolError::BadLayer);
    }
    let split = onion_frame.len() - AES_NONCE_LEN;
    let ciphertext = &onion_frame[0..split];
    let nonce = &onion_frame[split..onion_frame.len()];
    assert(ciphertext@ =~= onion_frame@.take(onion_frame@.len() - AES_NONCE_LEN));
    assert(nonce@ =~= onion_frame@.skip(onion_frame@.len() - AES_NONCE_LEN));
    let plain = match aes_decrypt(&key, nonce, ciphertext) {
        Ok(p) => p,
        Err(_) => {
            return Err(ProtocolError::BadLayer);
        },
    };
    match decode_onion_layer(plain.as_slice()) {
        Some(l) => Ok(l),
        None => Err(ProtocolError::BadLayer),
    }
}

} // verus!

verus! {

/// `plain` decodes to a `Relay` layer that names `node`'s textual
/// address and carries two frames which any private key matching
/// `node`'s public key opens to `prev`.
pub open spec fn spec_wraps(node: SpecNodeInfo, plain: Seq<u8>, prev: Seq<u8>) -> bool {
    match spec_decode_onion_layer(plain) {
        Some(SpecOnionLayer::Relay { next_hop, payload }) => {
            &&& next_hop == spec_address_text(node.address)
            &&& match spec_two_frames(payload) {
                Some(ff) => forall|sk: Seq<u8>|
                    #[trigger] rsa_public_pem_of(sk) == node.public_key ==> spec_open_frames(
                        sk,
                        ff.0,
                        ff.1,
                    ) == Some(prev),
                None => false,
            }
        },
        _ => false,
    }
}

/// Seals `plain` to `node`: draws a fresh session key, seals it to the
/// node's RSA key as the handshake frame, and encrypts `plain` under it
/// as the onion frame (nonce appended).
fn seal_to(node: &NodeInfo, plain: &Vec<u8>) -> (r: Result<OnionFrames, CircuitError>)
    requires
        plain@.len() <= MAX_AES_PLAINTEXT,
    ensures
        r matches Ok(fr) ==> {
            &&& fr.handshake@.len() <= 4 + MAX_RSA_MODULUS_LEN
            &&& fr.onion@.len() == plain@.len() + 28
            &&& forall|sk: Seq<u8>|
                #[trigger] rsa_public_pem_of(sk) == node@.public_key ==> spec_open_frames(
                    sk,
                    fr.handshake@,
                    fr.onion@,
                ) == Some(plain@)
        },
        spec_key_seals(node@.public_key) ==> r is Ok,
{
    let key = generate_aes_key();
    let ek = match rsa_encrypt(node.public_key.as_slice(), key.as_slice()) {
        Ok(ek) => ek,
        Err(_) => {
            proof {
                assert(key@.len() == AES_KEY_LEN);
            }
            return Err(CircuitError::Crypto);
        },
    };
    let ghost ek_v = ek@;
    let hs = HandshakeMessage { encrypted_aes_key: ek };
    let handshake = encode_handshake(&hs);
    let (ciphertext, nonce) = aes_encrypt(&key, plain.as_slice());
    let ghost ct_v = ciphertext@;
    let ghost nonce_v = nonce@;
    let mut onion = ciphertext;
    let mut nonce_moved = nonce;
    onion.append(&mut nonce_moved);
    proof {
        assert(onion@ == ct_v + nonce_v);
        lemma_handshake_round_trip(ek_v);
        assert(onion@.skip(onion@.len() - AES_NONCE_LEN) =~= nonce_v);
        assert(onion@.take(onion@.len() - AES_NONCE_LEN) =~= ct_v);
        assert forall|sk: Seq<u8>| #[trigger] rsa_public_pem_of(sk) == node@.public_key
            implies spec_open_frames(sk, handshake@, onion@) == Some(plain@) by {
            assert(rsa_open_of(sk, ek_v) == Some(key@));
        }
    }
    Ok(OnionFrames { handshake, onion })
}

/// Wraps `plain` in one more layer destined for `node`: seals it, frames
/// the handshake and the encrypted blob, and encodes the `Relay` layer
/// that names `node`'s textual address.
fn wrap_layer(node: &NodeInfo, plain: &Vec<u8>) -> (r: Result<Vec<u8>, CircuitError>)
    requires
        plain@.len() <= MAX_AES_PLAINTEXT,
    ensures
        r matches Ok(p) ==> {
            &&& p@.len() <= MAX_AES_PLAINTEXT
            &&& p@.len() <= plain@.len() + MAX_LAYER_GROWTH
            &&& spec_wraps(node@, p@, plain@)
        },
        spec_key_seals(node@.public_key) && plain@.len() + MAX_LAYER_GROWTH <= MAX_AES_PLAINTEXT
            ==> r is Ok,
{
    let fr = match seal_to(node, plain) {
        Ok(fr) => fr,
        Err(e) => {
            return Err(e);
        },
    };
    let mut inner: Vec<u8> = Vec::new();
    push_frame(&mut inner, fr.handshake.as_slice());
    push_frame(&mut inner, fr.onion.as_slice());
    let next_text = crate::addr::address_to_text(&node.address);
    proof {
        lemma_address_text_len(node@.address);
        assert(next_text@.len() <= MAX_ADDRESS_TEXT_LEN);
        assert(inner@.len() == plain@.len() + fr.handshake@.len() + 36);
    }
    let relay = OnionLayer::Relay { next_hop: next_text, payload: inner };
    let ghost relay_v = relay@;
    let out = encode_onion_layer(&relay);
    proof {
        assert(out@.len() <= plain@.len() + MAX_LAYER_GROWTH);
    }
    if out.len() > MAX_AES_PLAINTEXT {
        return Err(CircuitError::Oversize);
    }
    proof {
        assert(relay_v matches SpecOnionLayer::Relay { next_hop, payload } && next_hop
            == spec_address_text(node@.address) && payload == spec_frame(fr.handshake@)
            + spec_frame(fr.onion@));
        crate::bytes::lemma_two_frames_of_frames(fr.handshake@, fr.onion@);
        lemma_onion_layer_round_trip(relay_v);
    }
    Ok(out)
}

/// A matching hop list loses its first element together with the node
/// list it matches.
proof fn lemma_hops_match_tail(hops: Seq<SpecHop>, nodes: Seq<SpecNodeInfo>)
    requires
        spec_hops_match(hops, nodes),
        hops.len() >= 1,
    ensures
        spec_hops_match(hops.drop_first(), nodes.drop_first()),
{
    assert forall|i: int| 0 <= i < hops.drop_first().len() implies {
        &&& rsa_public_pem_of((#[trigger] hops.drop_first()[i]).priv_der)
            == nodes.drop_first()[i].public_key
        &&& hops.drop_first()[i].addr_text == spec_address_text(nodes.drop_first()[i].address)
    } by {
        assert(hops.drop_first()[i] == hops[i + 1]);
        assert(nodes.drop_first()[i] == nodes[i + 1]);
    }
}

/// One wrapped layer extends a peel chain by one hop at its front.
proof fn lemma_wrap_extends(
    node: SpecNodeInfo,
    plain: Seq<u8>,
    prev: Seq<u8>,
    rest: Seq<SpecHop>,
    h0: SpecHop,
)
    requires
        spec_wraps(node, plain, prev),
        rsa_public_pem_of(h0.priv_der) == node.public_key,
        h0.addr_text == spec_address_text(node.address),
        spec_plain_peels(rest, prev),
    ensures
        spec_plain_peels(seq![h0] + rest, plain),
{
    let full = seq![h0] + rest;
    assert(full[0] == h0);
    assert(full.drop_first() =~= rest);
}

/// Builds the two entry frames for `circuit`, innermost layer first.
///
/// Onion round-trip law: on success, for every assignment of private
/// keys that matches the circuit's advertised public keys, the returned
/// frames peel through all hops in order — each relay recovers its
/// session key and finds a `Relay` layer naming exactly its successor's
/// textual address, and the last relay finds `Exit`.
///
/// Success is owed: when every hop's public key can seal a session key
/// and the circuit is at most [`MAX_BUILD_HOPS`] long, the builder
/// returns `Ok`.
#[verifier::loop_isolation(false)]
pub fn build_onion(circuit: &Vec<NodeInfo>) -> (r: Result<OnionFrames, CircuitError>)
    requires
        circuit@.len() >= 1,
    ensures
        r matches Ok(fr) ==> forall|hops: Seq<SpecHop>|
            #[trigger] spec_hops_match(hops, spec_node_list_view(circuit@)) ==> spec_onion_peels(
                hops,
                fr.handshake@,
                fr.onion@,
            ),
        r matches Ok(fr) ==> fr.handshake@.len() <= MAX_FRAME_PAYLOAD && fr.onion@.len()
            <= MAX_FRAME_PAYLOAD,
        circuit@.len() <= MAX_BUILD_HOPS && (forall|i: int|
            0 <= i < circuit@.len() ==> spec_key_seals(
                (#[trigger] circuit@[i]@).public_key,
            )) ==> r is Ok,
{
    let ghost views = spec_node_list_view(circuit@);
    let n = circuit.len();
    let ghost seals_ok: bool = circuit@.len() <= MAX_BUILD_HOPS && (forall|i: int|
        0 <= i < circuit@.len() ==> spec_key_seals((#[trigger] circuit@[i]@).public_key));
    let mut payload = encode_onion_layer(&OnionLayer::Exit);
    proof {
        lemma_onion_layer_round_trip(SpecOnionLayer::Exit);
    }
    let mut j: usize = n - 1;
    while j > 0
        invariant
            j + 1 <= n,
            payload@.len() <= MAX_AES_PLAINTEXT,
            seals_ok ==> payload@.len() <= 4 + MAX_LAYER_GROWTH * ((n - 1) - j),
            forall|h: Seq<SpecHop>|
                #[trigger] spec_hops_match(h, views.subrange(j + 1, n as int))
                    ==> spec_plain_peels(h, payload@),
        decreases j,
    {
        let ghost prev = payload@;
        let new_payload = match wrap_layer(&circuit[j], &payload) {
            Ok(p) => p,
            Err(e) => {
                proof {
                    if seals_ok {
                        assert(spec_key_seals(circuit@[j as int]@.public_key));
                        assert(payload@.len() + MAX_LAYER_GROWTH <= 4 + MAX_LAYER_GROWTH * (n
                            - j));
                        assert(payload@.len() + MAX_LAYER_GROWTH <= MAX_AES_PLAINTEXT);
                        assert(false);
                    }
                }
                return Err(e);
            },
        };
        proof {
            let node_v = circuit@[j as int]@;
            assert forall|h: Seq<SpecHop>|
                #[trigger] spec_hops_match(h, views.subrange(j as int, n as int))
                    implies spec_plain_peels(h, new_payload@) by {
                let nodes_sub = views.subrange(j as int, n as int);
                assert(h.len() >= 1);
                lemma_hops_match_tail(h, nodes_sub);
                assert(nodes_sub.drop_first() =~= views.subrange(j + 1, n as int));
                assert(spec_plain_peels(h.drop_first(), prev));
                assert(nodes_sub[0] == node_v);
                assert(rsa_public_pem_of(h[0].priv_der) == node_v.public_key);
                assert(h[0].addr_text == spec_address_text(node_v.address));
                lemma_wrap_extends(node_v, new_payload@, prev, h.drop_first(), h[0]);
                assert(seq![h[0]] + h.drop_first() =~= h);
            }
        }
        payload = new_payload;
        j = j - 1;
    }
    let fr = match seal_to(&circuit[0], &payload) {
        Ok(fr) => fr,
        Err(e) => {
            proof {
                if seals_ok {
                    assert(spec_key_seals(circuit@[0]@.public_key));
                    assert(false);
                }
            }
            return Err(e);
        },
    };
    proof {
        assert forall|hops: Seq<SpecHop>| #[trigger] spec_hops_match(hops, views)
            implies spec_onion_peels(hops, fr.handshake@, fr.onion@) by {
            assert(hops.len() == n);
            lemma_hops_match_tail(hops, views);
            assert(views.drop_first() =~= views.subrange(1, n as int));
            assert(spec_plain_peels(hops.drop_first(), payload@));
            assert(views[0] == circuit@[0]@);
            assert(rsa_public_pem_of(hops[0].priv_der) == views[0].public_key);
            assert(spec_open_frames(hops[0].priv_der, fr.handshake@, fr.onion@) == Some(payload@));
        }
    }
    Ok(fr)
}

} // verus!

verus! {

/// What each relay's own peeling step sees on a chain that peels: the
/// first hop's peel succeeds, yields `Exit` exactly at the last hop, and
/// at every earlier hop yields a `Relay` layer that names the next hop's
/// address and carries the two frames on which the rest of the chain
/// peels in turn.
pub proof fn lemma_peel_of_chain(hops: Seq<SpecHop>, f1: Seq<u8>, f2: Seq<u8>)
    requires
        spec_onion_peels(hops, f1, f2),
    ensures
        hops.len() == 1 ==> spec_peel(hops[0].priv_der, f1, f2) == Ok::<
            SpecOnionLayer,
            ProtocolError,
        >(SpecOnionLayer::Exit),
        hops.len() > 1 ==> (spec_peel(hops[0].priv_der, f1, f2) matches Ok(
            SpecOnionLayer::Relay { next_hop, payload },
        ) && next_hop == hops[1].addr_text && (spec_two_frames(payload) matches Some(ff)
            && spec_onion_peels(hops.drop_first(), ff.0, ff.1))),
{
    let plain = spec_open_frames(hops[0].priv_der, f1, f2).unwrap();
    assert(spec_plain_peels(hops.drop_first(), plain));
    if hops.len() > 1 {
        let rest = hops.drop_first();
        assert(rest[0] == hops[1]);
        assert(rest.drop_first() =~= hops.drop_first().drop_first());
    }
}

} // verus!
