//! The directory authority's registry of relays and its request handler.
//!
//! The registry is an in-memory map from socket address to advertisement.
//! A request with the wrong shared secret is answered by closing the
//! connection without a reply and leaves the registry untouched.

use vstd::prelude::*;
use crate::addr::Address;
use crate::bytes::MAX_FRAME_PAYLOAD;
use crate::codec::{
    encode_directory_response, encode_node_list_response, spec_encode_directory_response,
};
use crate::keyed::{
    spec_entries_map, spec_keys_unique, lemma_entries_map_dom, lemma_entries_map_at,
    lemma_entries_map_remove,
};
use crate::protocol::{
    NodeInfo, SpecNodeInfo, DirectoryRequest, SpecDirectoryRequest, DirectoryResponse,
    SpecDirectoryResponse, spec_node_list_view,
};

verus! {

/// A list of advertisements as the keyed entry list it is: each one
/// keyed by its address.
pub open spec fn spec_registry_entries(s: Seq<SpecNodeInfo>) -> Seq<(Address, SpecNodeInfo)> {
    Seq::new(s.len(), |i: int| (s[i].address, s[i]))
}

/// The directory's in-memory registry of relays, keyed by address.
pub struct NodeRegistry {
    nodes: Vec<NodeInfo>,
}

impl NodeRegistry {
    /// The advertised relays, in registration order.
    pub closed spec fn view(&self) -> Seq<SpecNodeInfo> {
        spec_node_list_view(self.nodes@)
    }

    /// The registry as the map it represents.
    pub open spec fn addr_map(&self) -> Map<Address, SpecNodeInfo> {
        spec_entries_map(spec_registry_entries(self@))
    }

    /// Well-formed: one advertisement per address, every advertisement
    /// small enough for the wire format, and room left to count entries
    /// in a 32-bit length.
    pub open spec fn wf(&self) -> bool {
        &&& spec_keys_unique(spec_registry_entries(self@))
        &&& forall|i: int|
            0 <= i < self@.len() ==> (#[trigger] self@[i]).public_key.len() + 11
                <= MAX_FRAME_PAYLOAD
        &&& self@.len() <= 0xffff_ffff
    }

    /// An empty registry.
    pub fn new() -> (r: Self)
        ensures
            r.wf(),
            r@ == Seq::<SpecNodeInfo>::empty(),
    {
        let r = NodeRegistry { nodes: Vec::new() };
        proof {
            assert(r@ =~= Seq::<SpecNodeInfo>::empty());
        }
        r
    }

    /// How many relays are registered.
    pub fn len(&self) -> (n: usize)
        ensures
            n == self@.len(),
    {
        self.nodes.len()
    }

    /// The position of the advertisement for `a`, if one is registered.
    #[verifier::loop_isolation(false)]
    fn find(&self, a: &Address) -> (r: Option<usize>)
        requires
            self.wf(),
        ensures
            match r {
                Some(i) => i < self@.len() && self@[i as int].address == *a
                    && self.addr_map().dom().contains(*a),
                None => !self.addr_map().dom().contains(*a),
            },
    {
        let ghost entries = spec_registry_entries(self@);
        proof {
            lemma_entries_map_dom(entries, *a);
        }
        let mut i: usize = 0;
        while i < self.nodes.len()
            invariant
                i <= self@.len(),
                forall|k: int| 0 <= k < i ==> (#[trigger] self@[k]).address != *a,
            decreases self@.len() - i,
        {
            if self.nodes[i].address == *a {
                assert(self@[i as int] == self.nodes@[i as int]@);
                assert(entries[i as int].0 == *a);
                assert(exists|k: int|
                    0 <= k < entries.len() && (#[trigger] entries[k]).0 == *a);
                return Some(i);
            }
            assert(self@[i as int].address != *a);
            i = i + 1;
        }
        assert(forall|k: int|
            0 <= k < entries.len() ==> (#[trigger] entries[k]).0 == self@[k].address);
        None
    }

    /// Records `info`, replacing any advertisement its address already
    /// had, as a map insert does. Rejects an advertisement whose key
    /// does not fit the wire format, or one that would overflow the
    /// list's 32-bit count; the registry is then unchanged.
    pub fn register(&mut self, info: NodeInfo) -> (ok: bool)
        requires
            old(self).wf(),
        ensures
            final(self).wf(),
            ok == (info@.public_key.len() + 11 <= MAX_FRAME_PAYLOAD && old(self)@.len()
                < 0xffff_ffff),
            ok ==> final(self).addr_map() == old(self).addr_map().insert(info@.address, info@),
            !ok ==> final(self)@ == old(self)@,
    {
        if info.public_key.len() > MAX_FRAME_PAYLOAD - 11 || self.nodes.len() >= 0xffff_ffff {
            return false;
        }
        let ghost addr = info@.address;
        match self.find(&info.address) {
            Some(i) => {
                let ghost entries_pre = spec_registry_entries(self@);
                proof {
                    lemma_entries_map_remove(entries_pre, i as int);
                }
                let ghost pre = self@;
                let _ = self.nodes.remove(i);
                proof {
                    assert(self@ =~= pre.remove(i as int));
                    assert(spec_registry_entries(self@) =~= entries_pre.remove(i as int));
                    lemma_entries_map_dom(spec_registry_entries(self@), addr);
                    assert(!self.addr_map().dom().contains(addr));
                    assert(forall|k: int|
                        0 <= k < self@.len() ==> #[trigger] self@[k] == (if k < i {
                            pre[k]
                        } else {
                            pre[k + 1]
                        }));
                }
            },
            None => {
            },
        }
        let ghost mid = self@;
        let ghost entries_mid = spec_registry_entries(mid);
        proof {
            lemma_entries_map_dom(entries_mid, addr);
        }
        self.nodes.push(info);
        proof {
            let entries_post = spec_registry_entries(self@);
            assert(entries_post.drop_last() =~= entries_mid);
            assert(entries_post.last() == (addr, info@));
            assert(forall|k: int| 0 <= k < mid.len() ==> #[trigger] self@[k] == mid[k]);
            assert(forall|k: int|
                0 <= k < entries_mid.len() ==> #[trigger] entries_post[k] == entries_mid[k]);
            assert(forall|k: int|
                0 <= k < entries_mid.len() ==> (#[trigger] entries_mid[k]).0 != addr);
            assert(spec_keys_unique(entries_post));
            assert(spec_entries_map(entries_post) == spec_entries_map(entries_mid).insert(
                addr,
                info@,
            ));
            assert(spec_entries_map(entries_post) =~= old(self).addr_map().insert(addr, info@));
        }
        true
    }

    /// The advertisement registered under `a`, if any.
    pub fn lookup(&self, a: &Address) -> (r: Option<&NodeInfo>)
        requires
            self.wf(),
        ensures
            match r {
                Some(n) => self.addr_map().dom().contains(*a) && n@ == self.addr_map()[*a],
                None => !self.addr_map().dom().contains(*a),
            },
    {
        match self.find(a) {
            Some(i) => {
                proof {
                    lemma_entries_map_at(spec_registry_entries(self@), i as int);
                }
                Some(&self.nodes[i])
            },
            None => None,
        }
    }
}

/// What the directory does with one handled request.
#[derive(Debug)]
pub enum DirectoryAction {
    /// Close the connection without any reply.
    Close,
    /// Send this serialized response, length-prefixed, then close.
    Reply(Vec<u8>),
}

/// The secret a request presents.
pub open spec fn spec_request_secret(r: SpecDirectoryRequest) -> Seq<u8> {
    match r {
        SpecDirectoryRequest::Register { secret, .. } => secret,
        SpecDirectoryRequest::GetNodes { secret } => secret,
    }
}

/// Compares two secrets in constant time: every byte is examined
/// whatever the outcome, so timing reveals at most the lengths.
pub fn secrets_match(a: &[u8], b: &[u8]) -> (r: bool)
    ensures
        r == (a@ == b@),
{
    if a.len() != b.len() {
        return false;
    }
    let n = a.len();
    let mut diff: u8 = 0;
    let mut i: usize = 0;
    while i < n
        invariant
            i <= n,
            n == a@.len() == b@.len(),
            (diff == 0) <==> (forall|k: int| 0 <= k < i ==> a@[k] == b@[k]),
        decreases n - i,
    {
        let x = a[i];
        let y = b[i];
        let ghost diff_pre = diff;
        diff = diff | (x ^ y);
        proof {
            assert((diff_pre | (x ^ y) == 0) <==> (diff_pre == 0 && x == y)) by (bit_vector);
        }
        i = i + 1;
    }
    if diff == 0 {
        proof {
            assert(a@ =~= b@);
        }
        true
    } else {
        false
    }
}

/// Handles one directory request against the registry.
///
/// Wrong-secret law: a request whose secret differs from the master
/// secret is answered by closing the connection with no reply, and the
/// registry is unchanged. With the right secret, `Register` records the
/// advertisement (keyed by address) and acknowledges; `GetNodes` replies
/// with the registered list and changes nothing.
pub fn handle_request(
    registry: &mut NodeRegistry,
    request: DirectoryRequest,
    master_secret: &[u8],
) -> (action: DirectoryAction)
    requires
        old(registry).wf(),
    ensures
        final(registry).wf(),
        spec_request_secret(request@) != master_secret@ ==> action is Close && final(registry)@
            == old(registry)@,
        request@ matches SpecDirectoryRequest::Register { info, secret } ==> (secret
            == master_secret@ ==> {
            if info.public_key.len() + 11 <= MAX_FRAME_PAYLOAD && old(registry)@.len()
                < 0xffff_ffff {
                &&& final(registry).addr_map() == old(registry).addr_map().insert(
                    info.address,
                    info,
                )
                &&& action matches DirectoryAction::Reply(bytes) && bytes@
                    == spec_encode_directory_response(SpecDirectoryResponse::Ack)
            } else {
                action is Close && final(registry)@ == old(registry)@
            }
        }),
        request@ matches SpecDirectoryRequest::GetNodes { secret } ==> (secret == master_secret@
            ==> final(registry)@ == old(registry)@ && (action matches DirectoryAction::Reply(bytes)
            && bytes@ == spec_encode_directory_response(
            SpecDirectoryResponse::NodeList(old(registry)@),
        ))),
{
    match request {
        DirectoryRequest::Register { info, secret } => {
            if !secrets_match(secret.as_slice(), master_secret) {
                return DirectoryAction::Close;
            }
            if !registry.register(info) {
                return DirectoryAction::Close;
            }
            let reply = encode_directory_response(&DirectoryResponse::Ack);
            DirectoryAction::Reply(reply)
        },
        DirectoryRequest::GetNodes { secret } => {
            if !secrets_match(secret.as_slice(), master_secret) {
                return DirectoryAction::Close;
            }
            proof {
                assert(forall|i: int|
                    0 <= i < registry.nodes@.len() ==> (#[trigger] registry.nodes@[i]@)
                        == registry@[i]);
            }
            let reply = encode_node_list_response(&registry.nodes);
            DirectoryAction::Reply(reply)
        },
    }
}

} // verus!
