//! The exit multiplexer's semantics: how the stream of circuit messages
//! drives the table of active streams, and what each target receives.
//!
//! The exit's reader keeps a [`StreamTable`] of active streams:
//! `BeginStream` registers one, `StreamData` forwards to it when it is
//! registered and is dropped silently otherwise, `EndStream` removes it.
//! The functions here state that semantics over message sequences and
//! prove its two laws: per-stream ordering and sibling isolation.

use vstd::prelude::*;
use crate::protocol::{CircuitMessage, SpecCircuitMessage, spec_message_views};
use crate::stream_table::StreamTable;

verus! {

/// The active set after one message: `BeginStream` registers the id,
/// `EndStream` removes it, data changes nothing.
pub open spec fn spec_mux_active(active: Set<u32>, m: SpecCircuitMessage) -> Set<u32> {
    match m {
        SpecCircuitMessage::BeginStream { id, .. } => active.insert(id),
        SpecCircuitMessage::StreamData { .. } => active,
        SpecCircuitMessage::EndStream { id } => active.remove(id),
    }
}

/// The active set after a whole message sequence.
pub open spec fn spec_mux_run(active: Set<u32>, msgs: Seq<SpecCircuitMessage>) -> Set<u32>
    decreases msgs.len(),
{
    if msgs.len() == 0 {
        active
    } else {
        spec_mux_run(spec_mux_active(active, msgs[0]), msgs.drop_first())
    }
}

/// The data chunks the multiplexer forwards to the target of stream `id`
/// while processing `msgs` from the active set `active`: the payloads of
/// exactly those `StreamData` messages for `id` that arrive while `id`
/// is active, in their arrival order.
pub open spec fn spec_forwarded(active: Set<u32>, msgs: Seq<SpecCircuitMessage>, id: u32) -> Seq<
    Seq<u8>,
>
    decreases msgs.len(),
{
    if msgs.len() == 0 {
        Seq::<Seq<u8>>::empty()
    } else {
        let rest = spec_forwarded(spec_mux_active(active, msgs[0]), msgs.drop_first(), id);
        match msgs[0] {
            SpecCircuitMessage::StreamData { id: mid, data } => if mid == id && active.contains(
                id,
            ) {
                seq![data] + rest
            } else {
                rest
            },
            _ => rest,
        }
    }
}

/// The payloads of all `StreamData` messages for `id` in `msgs`, in
/// order: what the sender put on the wire for that stream.
pub open spec fn spec_stream_payloads(msgs: Seq<SpecCircuitMessage>, id: u32) -> Seq<Seq<u8>>
    decreases msgs.len(),
{
    if msgs.len() == 0 {
        Seq::<Seq<u8>>::empty()
    } else {
        let rest = spec_stream_payloads(msgs.drop_first(), id);
        match msgs[0] {
            SpecCircuitMessage::StreamData { id: mid, data } => if mid == id {
                seq![data] + rest
            } else {
                rest
            },
            _ => rest,
        }
    }
}

/// Ordering law: for a stream that is active and is not ended within
/// `msgs`, the multiplexer forwards to its target exactly the payloads
/// its sender put on the wire, in order — so the bytes delivered to the
/// destination equal, in order, the bytes sent.
pub proof fn lemma_stream_ordering(active: Set<u32>, msgs: Seq<SpecCircuitMessage>, id: u32)
    requires
        active.contains(id),
        forall|i: int|
            0 <= i < msgs.len() ==> (#[trigger] msgs[i] matches SpecCircuitMessage::EndStream {
                id: mid,
            } ==> mid != id),
    ensures
        spec_forwarded(active, msgs, id) == spec_stream_payloads(msgs, id),
    decreases msgs.len(),
{
    if msgs.len() == 0 {
    } else {
        let next = spec_mux_active(active, msgs[0]);
        assert(msgs[0] matches SpecCircuitMessage::EndStream { id: mid } ==> mid != id);
        assert(next.contains(id));
        assert(forall|i: int|
            0 <= i < msgs.drop_first().len() ==> #[trigger] msgs.drop_first()[i] == msgs[i + 1]);
        lemma_stream_ordering(next, msgs.drop_first(), id);
    }
}

/// Sibling-isolation law: what stream `id` receives depends only on
/// whether `id` itself is active, never on which other streams are —
/// ending or opening sibling streams cannot change its delivery.
pub proof fn lemma_sibling_isolation(
    active1: Set<u32>,
    active2: Set<u32>,
    msgs: Seq<SpecCircuitMessage>,
    id: u32,
)
    requires
        active1.contains(id) == active2.contains(id),
    ensures
        spec_forwarded(active1, msgs, id) == spec_forwarded(active2, msgs, id),
    decreases msgs.len(),
{
    if msgs.len() == 0 {
    } else {
        let n1 = spec_mux_active(active1, msgs[0]);
        let n2 = spec_mux_active(active2, msgs[0]);
        assert(n1.contains(id) == n2.contains(id));
        lemma_sibling_isolation(n1, n2, msgs.drop_first(), id);
    }
}

/// The element-wise view of a list of data chunks.
pub open spec fn spec_chunk_views(v: Seq<Vec<u8>>) -> Seq<Seq<u8>> {
    Seq::new(v.len(), |i: int| v[i]@)
}

/// Replays a sequence of circuit messages against the table of active
/// streams, exactly as the exit multiplexer's reader loop does, and
/// collects what is forwarded to stream `id`: `BeginStream` registers a
/// stream, `StreamData` is forwarded when its stream is registered and
/// dropped silently otherwise, `EndStream` unregisters exactly its
/// stream.
#[verifier::loop_isolation(false)]
pub fn mux_replay(streams: &mut StreamTable<()>, msgs: Vec<CircuitMessage>, id: u32) -> (delivered:
    Vec<Vec<u8>>)
    ensures
        final(streams)@.dom() == spec_mux_run(old(streams)@.dom(), spec_message_views(msgs@)),
        spec_chunk_views(delivered@) == spec_forwarded(
            old(streams)@.dom(),
            spec_message_views(msgs@),
            id,
        ),
{
    let ghost all_views = spec_message_views(msgs@);
    let ghost dom0 = old(streams)@.dom();
    let mut remaining = msgs;
    let mut delivered: Vec<Vec<u8>> = Vec::new();
    proof {
        assert(spec_chunk_views(delivered@) =~= Seq::<Seq<u8>>::empty());
    }
    while remaining.len() > 0
        invariant
            spec_mux_run(dom0, all_views) == spec_mux_run(
                streams@.dom(),
                spec_message_views(remaining@),
            ),
            spec_forwarded(dom0, all_views, id) == spec_chunk_views(delivered@) + spec_forwarded(
                streams@.dom(),
                spec_message_views(remaining@),
                id,
            ),
        decreases remaining@.len(),
    {
        let ghost views_pre = spec_message_views(remaining@);
        let ghost dom_pre = streams@.dom();
        let ghost delivered_pre = delivered@;
        let m = remaining.remove(0);
        proof {
            assert(m@ == views_pre[0]);
            assert(spec_message_views(remaining@) =~= views_pre.drop_first());
        }
        match m {
            CircuitMessage::BeginStream { id: mid, destination: _ } => {
                streams.insert(mid, ());
                proof {
                    assert(streams@.dom() =~= spec_mux_active(dom_pre, views_pre[0]));
                }
            },
            CircuitMessage::StreamData { id: mid, data } => {
                if mid == id && streams.contains(mid) {
                    delivered.push(data);
                    proof {
                        assert(spec_chunk_views(delivered@) =~= spec_chunk_views(delivered_pre)
                            + seq![views_pre[0]->StreamData_data]);
                        assert(spec_chunk_views(delivered_pre) + (seq![
                            views_pre[0]->StreamData_data,
                        ] + spec_forwarded(streams@.dom(), views_pre.drop_first(), id))
                            =~= spec_chunk_views(delivered@) + spec_forwarded(
                            streams@.dom(),
                            views_pre.drop_first(),
                            id,
                        ));
                    }
                }
            },
            CircuitMessage::EndStream { id: mid } => {
                let _ = streams.remove(mid);
                proof {
                    assert(streams@.dom() =~= spec_mux_active(dom_pre, views_pre[0]));
                }
            },
        }
    }
    proof {
        assert(spec_message_views(remaining@).len() == 0);
        assert(spec_forwarded(dom0, all_views, id) =~= spec_chunk_views(delivered@));
    }
    delivered
}

} // verus!
