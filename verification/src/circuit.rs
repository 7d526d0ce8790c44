//! Proxy-side circuit management: stream-id allocation, hop selection,
//! and the directory exchanges the proxy and the nodes perform.

use vstd::prelude::*;
use rand::seq::SliceRandom;
use crate::CIRCUIT_LEN;
use crate::codec::{decode_directory_response, spec_decode_directory_response};
use crate::errors::{CircuitError, DirectoryError};
use crate::protocol::{
    NodeInfo, DirectoryResponse, SpecDirectoryResponse, spec_node_list_view, CircuitMessage,
    SpecCircuitMessage, spec_message_views,
};
use crate::stream_table::StreamTable;

verus! {

/// The first stream id a circuit hands out.
pub const FIRST_STREAM_ID: u32 = 1;

/// The proxy-side allocator of stream identifiers: a monotonically
/// increasing counter starting at [`FIRST_STREAM_ID`].
pub struct CircuitManager {
    next_stream_id: u32,
    allocated: Ghost<Set<u32>>,
}

impl CircuitManager {
    /// The ids this manager has handed out so far.
    pub closed spec fn allocated_ids(&self) -> Set<u32> {
        self.allocated@
    }

    /// The id the next allocation will return.
    pub closed spec fn next_id(&self) -> u32 {
        self.next_stream_id
    }

    /// Every id handed out so far lies below the counter.
    pub open spec fn wf(&self) -> bool {
        forall|id: u32| self.allocated_ids().contains(id) ==> id < self.next_id()
    }

    /// A fresh allocator; no ids are out yet.
    pub fn new() -> (r: Self)
        ensures
            r.wf(),
            r.next_id() == FIRST_STREAM_ID,
            r.allocated_ids() == Set::<u32>::empty(),
    {
        CircuitManager { next_stream_id: FIRST_STREAM_ID, allocated: Ghost(Set::empty()) }
    }

    /// Whether another id can still be allocated.
    pub fn can_allocate(&self) -> (b: bool)
        ensures
            b == (self.next_id() < u32::MAX),
    {
        self.next_stream_id < u32::MAX
    }

    /// Allocates the next stream id.
    ///
    /// Stream-id uniqueness law: the returned id differs from every id
    /// this manager has allocated before, so across any number of
    /// concurrent browser connections on one circuit the ids are
    /// pairwise distinct.
    pub fn new_stream_id(&mut self) -> (id: u32)
        requires
            old(self).wf(),
            old(self).next_id() < u32::MAX,
        ensures
            final(self).wf(),
            id == old(self).next_id(),
            final(self).next_id() == id + 1,
            !old(self).allocated_ids().contains(id),
            final(self).allocated_ids() == old(self).allocated_ids().insert(id),
    {
        let id = self.next_stream_id;
        self.next_stream_id = self.next_stream_id + 1;
        self.allocated = Ghost(self.allocated@.insert(id));
        proof {
            assert forall|x: u32| self.allocated_ids().contains(x) implies x < self.next_id() by {
                assert(x == id || old(self).allocated_ids().contains(x));
            }
        }
        id
    }
}

/// Permutes `nodes` uniformly at random, in place.
///
/// Relies on `rand::seq::SliceRandom::shuffle`: the result is a
/// permutation of the input, so the elements are preserved as a
/// multiset; nothing can be promised about their order.
#[verifier::external_body]
fn shuffle_nodes(nodes: &mut Vec<NodeInfo>)
    ensures
        final(nodes)@.len() == old(nodes)@.len(),
        final(nodes)@.to_multiset() == old(nodes)@.to_multiset(),
{
    nodes.as_mut_slice().shuffle(&mut rand::thread_rng());
}

/// Chooses the ordered hops of a fresh circuit: a uniform random sample
/// of [`CIRCUIT_LEN`] of the advertised nodes, without replacement.
/// Fails with `InsufficientNodes` exactly when fewer than `CIRCUIT_LEN`
/// nodes are available.
pub fn select_circuit_hops(nodes: Vec<NodeInfo>) -> (r: Result<Vec<NodeInfo>, CircuitError>)
    ensures
        match r {
            Ok(hops) => nodes@.len() >= CIRCUIT_LEN && hops@.len() == CIRCUIT_LEN
                && hops@.to_multiset().subset_of(nodes@.to_multiset()),
            Err(e) => e == CircuitError::InsufficientNodes && nodes@.len() < CIRCUIT_LEN,
        },
{
    if nodes.len() < CIRCUIT_LEN {
        return Err(CircuitError::InsufficientNodes);
    }
    let mut pool = nodes;
    shuffle_nodes(&mut pool);
    let ghost shuffled = pool@;
    pool.truncate(CIRCUIT_LEN);
    proof {
        broadcast use vstd::multiset::group_multiset_axioms;

        let k = CIRCUIT_LEN as int;
        assert(shuffled.len() >= k);
        assert(pool@ =~= shuffled.take(k));
        assert(shuffled =~= shuffled.take(k) + shuffled.skip(k));
        vstd::seq_lib::lemma_multiset_commutative(shuffled.take(k), shuffled.skip(k));
        assert(forall|x: NodeInfo| pool@.to_multiset().count(x) <= shuffled.to_multiset().count(x));
    }
    Ok(pool)
}

/// Interprets the directory's reply to a node-list request: the
/// advertised nodes when the reply is a well-formed `NodeList`, an error
/// on anything else.
pub fn parse_node_list_response(buf: &[u8]) -> (r: Result<Vec<NodeInfo>, DirectoryError>)
    ensures
        match r {
            Ok(nodes) => spec_decode_directory_response(buf@) == Some(
                SpecDirectoryResponse::NodeList(spec_node_list_view(nodes@)),
            ),
            Err(e) => e == DirectoryError::BadResponse && !(spec_decode_directory_response(buf@)
                matches Some(SpecDirectoryResponse::NodeList(_))),
        },
{
    match decode_directory_response(buf) {
        Some(resp) => match resp {
            DirectoryResponse::NodeList(nodes) => Ok(nodes),
            DirectoryResponse::Ack => Err(DirectoryError::BadResponse),
        },
        None => Err(DirectoryError::BadResponse),
    }
}

/// Whether the directory's reply to a registration is the acknowledgment.
pub fn response_is_ack(buf: &[u8]) -> (b: bool)
    ensures
        b == (spec_decode_directory_response(buf@) == Some(SpecDirectoryResponse::Ack)),
{
    match decode_directory_response(buf) {
        Some(resp) => match resp {
            DirectoryResponse::Ack => true,
            DirectoryResponse::NodeList(_) => false,
        },
        None => false,
    }
}

} // verus!

verus! {

/// The registered set after the proxy's inbound dispatcher handles one
/// message: `EndStream` removes the stream, data changes nothing, and a
/// `BeginStream` is ignored — the proxy never receives one, and only its
/// own SOCKS5 handlers register streams.
pub open spec fn spec_dispatch_active(active: Set<u32>, m: SpecCircuitMessage) -> Set<u32> {
    match m {
        SpecCircuitMessage::BeginStream { .. } => active,
        SpecCircuitMessage::StreamData { .. } => active,
        SpecCircuitMessage::EndStream { id } => active.remove(id),
    }
}

/// The registered set after a whole inbound message sequence.
pub open spec fn spec_dispatch_run(active: Set<u32>, msgs: Seq<SpecCircuitMessage>) -> Set<u32>
    decreases msgs.len(),
{
    if msgs.len() == 0 {
        active
    } else {
        spec_dispatch_run(spec_dispatch_active(active, msgs[0]), msgs.drop_first())
    }
}

/// The data chunks the proxy's dispatcher hands to the browser of stream
/// `id` while processing `msgs` from the registered set `active`: the
/// payloads of exactly those `StreamData` messages for `id` that arrive
/// while `id` is registered, in their arrival order.
pub open spec fn spec_dispatch_forwarded(
    active: Set<u32>,
    msgs: Seq<SpecCircuitMessage>,
    id: u32,
) -> Seq<Seq<u8>>
    decreases msgs.len(),
{
    if msgs.len() == 0 {
        Seq::<Seq<u8>>::empty()
    } else {
        let rest = spec_dispatch_forwarded(
            spec_dispatch_active(active, msgs[0]),
            msgs.drop_first(),
            id,
        );
        match msgs[0] {
            SpecCircuitMessage::StreamData { id: mid, data } => if mid == id && active.contains(
                id,
            ) {
                seq![data] + rest
            } else {
                rest
            },
            _ => rest,
        }
    }
}

/// Ordering law, proxy side: for a stream that is registered and is not
/// ended within `msgs`, the dispatcher hands its browser exactly the
/// payloads the exit put on the wire for it, in order.
pub proof fn lemma_dispatch_stream_ordering(
    active: Set<u32>,
    msgs: Seq<SpecCircuitMessage>,
    id: u32,
)
    requires
        active.contains(id),
        forall|i: int|
            0 <= i < msgs.len() ==> (#[trigger] msgs[i] matches SpecCircuitMessage::EndStream {
                id: mid,
            } ==> mid != id),
    ensures
        spec_dispatch_forwarded(active, msgs, id) == crate::exit::spec_stream_payloads(msgs, id),
    decreases msgs.len(),
{
    if msgs.len() == 0 {
    } else {
        let next = spec_dispatch_active(active, msgs[0]);
        assert(msgs[0] matches SpecCircuitMessage::EndStream { id: mid } ==> mid != id);
        assert(next.contains(id));
        assert(forall|i: int|
            0 <= i < msgs.drop_first().len() ==> #[trigger] msgs.drop_first()[i] == msgs[i + 1]);
        lemma_dispatch_stream_ordering(next, msgs.drop_first(), id);
    }
}

/// Sibling-isolation law, proxy side: what stream `id` receives depends
/// only on whether `id` itself is registered, never on which other
/// streams are.
pub proof fn lemma_dispatch_sibling_isolation(
    active1: Set<u32>,
    active2: Set<u32>,
    msgs: Seq<SpecCircuitMessage>,
    id: u32,
)
    requires
        active1.contains(id) == active2.contains(id),
    ensures
        spec_dispatch_forwarded(active1, msgs, id) == spec_dispatch_forwarded(active2, msgs, id),
    decreases msgs.len(),
{
    if msgs.len() == 0 {
    } else {
        let n1 = spec_dispatch_active(active1, msgs[0]);
        let n2 = spec_dispatch_active(active2, msgs[0]);
        assert(n1.contains(id) == n2.contains(id));
        lemma_dispatch_sibling_isolation(n1, n2, msgs.drop_first(), id);
    }
}

/// Replays a sequence of inbound circuit messages against the proxy's
/// table of browser streams, exactly as the circuit-reader loop does,
/// and collects what reaches the browser of stream `id`: `StreamData` is
/// delivered when its stream is registered and dropped silently
/// otherwise, `EndStream` unregisters exactly its stream, `BeginStream`
/// is ignored.
#[verifier::loop_isolation(false)]
pub fn dispatch_replay(streams: &mut StreamTable<()>, msgs: Vec<CircuitMessage>, id: u32) -> (r:
    Vec<Vec<u8>>)
    ensures
        final(streams)@.dom() == spec_dispatch_run(old(streams)@.dom(), spec_message_views(msgs@)),
        crate::exit::spec_chunk_views(r@) == spec_dispatch_forwarded(
            old(streams)@.dom(),
            spec_message_views(msgs@),
            id,
        ),
{
    let ghost all_views = spec_message_views(msgs@);
    let ghost dom0 = old(streams)@.dom();
    let mut remaining = msgs;
    let mut delivered: Vec<Vec<u8>> = Vec::new();
    proof {
        assert(crate::exit::spec_chunk_views(delivered@) =~= Seq::<Seq<u8>>::empty());
    }
    while remaining.len() > 0
        invariant
            spec_dispatch_run(dom0, all_views) == spec_dispatch_run(
                streams@.dom(),
                spec_message_views(remaining@),
            ),
            spec_dispatch_forwarded(dom0, all_views, id) == crate::exit::spec_chunk_views(
                delivered@,
            ) + spec_dispatch_forwarded(streams@.dom(), spec_message_views(remaining@), id),
        decreases remaining@.len(),
    {
        let ghost views_pre = spec_message_views(remaining@);
        let ghost dom_pre = streams@.dom();
        let ghost delivered_pre = delivered@;
        let m = remaining.remove(0);
        proof {
            assert(m@ == views_pre[0]);
            assert(spec_message_views(remaining@) =~= views_pre.drop_first());
        }
        match m {
            CircuitMessage::BeginStream { .. } => {
            },
            CircuitMessage::StreamData { id: mid, data } => {
                if mid == id && streams.contains(mid) {
                    delivered.push(data);
                    proof {
                        assert(crate::exit::spec_chunk_views(delivered@)
                            =~= crate::exit::spec_chunk_views(delivered_pre) + seq![
                            views_pre[0]->StreamData_data,
                        ]);
                        assert(crate::exit::spec_chunk_views(delivered_pre) + (seq![
                            views_pre[0]->StreamData_data,
                        ] + spec_dispatch_forwarded(streams@.dom(), views_pre.drop_first(), id))
                            =~= crate::exit::spec_chunk_views(delivered@)
                            + spec_dispatch_forwarded(
                            streams@.dom(),
                            views_pre.drop_first(),
                            id,
                        ));
                    }
                }
            },
            CircuitMessage::EndStream { id: mid } => {
                let _ = streams.remove(mid);
                proof {
                    assert(streams@.dom() =~= spec_dispatch_active(dom_pre, views_pre[0]));
                }
            },
        }
    }
    proof {
        assert(spec_message_views(remaining@).len() == 0);
        assert(spec_dispatch_forwarded(dom0, all_views, id) =~= crate::exit::spec_chunk_views(
            delivered@,
        ));
    }
    delivered
}

} // verus!
