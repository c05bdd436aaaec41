//! What reassembly promises when the fragments of many datagrams are mixed.

use crate::capture::ip_frag::{IpFragmentKey, IpPacketView};
use crate::capture::laws::{
    accepted_all, all_arrived, all_kept, arrived, delivered_all, describes, holds_at,
    is_fragment_of, is_own, kept, latest_at, law_datagram_describes_its_run,
    law_fragments_give_back_datagram, law_missing_fragment_delivers_nothing, offset_of, offsets,
    told,
};
use crate::capture::reassembly::{
    accepted, delivered, without_oldest, FlowView, IpDatagramView, ReassemblerView,
};
use vstd::prelude::*;

verus! {

/// The fragments of one datagram among the packets, in order.
pub open spec fn own_fragments(packets: Seq<IpPacketView>, key: IpFragmentKey) -> Seq<IpPacketView>
    decreases packets.len(),
{
    if packets.len() == 0 {
        seq![]
    } else if is_own(packets.last(), key) {
        own_fragments(packets.drop_last(), key).push(packets.last())
    } else {
        own_fragments(packets.drop_last(), key)
    }
}

/// What the fragments of one datagram deliver, in order, while other packets come between.
pub open spec fn delivered_for(
    state: ReassemblerView,
    packets: Seq<IpPacketView>,
    key: IpFragmentKey,
) -> Seq<IpDatagramView>
    decreases packets.len(),
{
    if packets.len() == 0 {
        seq![]
    } else {
        let before = packets.drop_last();
        if is_own(packets.last(), key) {
            delivered_for(state, before, key) + delivered(
                accepted_all(state, before),
                packets.last(),
            )
        } else {
            delivered_for(state, before, key)
        }
    }
}

/// A packet of another datagram makes this one go, to have its place.
pub open spec fn evicts(state: ReassemblerView, packet: IpPacketView, key: IpFragmentKey) -> bool {
    !is_own(packet, key) && state.flows.contains_key(key) && !accepted(
        state,
        packet,
    ).flows.contains_key(key)
}

/// No packet of the run makes the datagram go. Others may have to.
pub open spec fn never_evicted(
    state: ReassemblerView,
    packets: Seq<IpPacketView>,
    key: IpFragmentKey,
) -> bool
    decreases packets.len(),
{
    packets.len() == 0 || {
        &&& never_evicted(state, packets.drop_last(), key)
        &&& !evicts(accepted_all(state, packets.drop_last()), packets.last(), key)
    }
}

spec fn flow_of(state: ReassemblerView, key: IpFragmentKey) -> Option<FlowView> {
    if state.flows.contains_key(key) {
        Some(state.flows[key])
    } else {
        None
    }
}

proof fn lemma_oldest_adds_nothing(
    flows: Map<IpFragmentKey, FlowView>,
    order: Seq<IpFragmentKey>,
    key: IpFragmentKey,
)
    requires
        !flows.contains_key(key),
    ensures
        !without_oldest(flows, order).0.contains_key(key),
    decreases order.len(),
{
    if order.len() > 0 && !flows.contains_key(order[0]) {
        lemma_oldest_adds_nothing(flows, order.skip(1), key);
    }
}

/// What a fragment does to its datagram depends on that datagram alone.
proof fn lemma_own_step(
    a: ReassemblerView,
    b: ReassemblerView,
    packet: IpPacketView,
    key: IpFragmentKey,
)
    requires
        flow_of(a, key) == flow_of(b, key),
        is_own(packet, key),
    ensures
        delivered(a, packet) == delivered(b, packet),
        flow_of(accepted(a, packet), key) == flow_of(accepted(b, packet), key),
{
    if !a.flows.contains_key(key) {
        lemma_oldest_adds_nothing(a.flows, a.order, key);
        lemma_oldest_adds_nothing(b.flows, b.order, key);
    }
}

/// What is left after the oldest has gone is as it was.
proof fn lemma_oldest_keeps_others(
    flows: Map<IpFragmentKey, FlowView>,
    order: Seq<IpFragmentKey>,
    key: IpFragmentKey,
)
    requires
        without_oldest(flows, order).0.contains_key(key),
    ensures
        flows.contains_key(key),
        without_oldest(flows, order).0[key] == flows[key],
    decreases order.len(),
{
    if order.len() > 0 && !flows.contains_key(order[0]) {
        lemma_oldest_keeps_others(flows, order.skip(1), key);
    }
}

/// A packet of another datagram that does not make this one go leaves it as it is.
proof fn lemma_other_step(state: ReassemblerView, packet: IpPacketView, key: IpFragmentKey)
    requires
        !is_own(packet, key),
        !evicts(state, packet, key),
    ensures
        flow_of(accepted(state, packet), key) == flow_of(state, key),
{
    if without_oldest(state.flows, state.order).0.contains_key(key) {
        lemma_oldest_keeps_others(state.flows, state.order, key);
    }
}

proof fn lemma_own_are_own(packets: Seq<IpPacketView>, key: IpFragmentKey)
    ensures
        forall|j: int|
            0 <= j < own_fragments(packets, key).len() ==> is_own(
                #[trigger] own_fragments(packets, key)[j],
                key,
            ),
    decreases packets.len(),
{
    if packets.len() > 0 {
        let own = own_fragments(packets, key);
        let before = own_fragments(packets.drop_last(), key);
        lemma_own_are_own(packets.drop_last(), key);
        assert forall|j: int| 0 <= j < own.len() implies is_own(#[trigger] own[j], key) by {
            if j < before.len() {
                assert(own[j] == before[j]);
            }
        }
    }
}

/// While it does not have to go, a datagram fares among others as it would alone.
pub proof fn law_datagrams_do_not_disturb_each_other(
    state: ReassemblerView,
    packets: Seq<IpPacketView>,
    key: IpFragmentKey,
)
    requires
        never_evicted(state, packets, key),
    ensures
        delivered_for(state, packets, key) == delivered_all(state, own_fragments(packets, key)),
        accepted_all(state, packets).flows.contains_key(key) <==> accepted_all(
            state,
            own_fragments(packets, key),
        ).flows.contains_key(key),
        accepted_all(state, packets).flows.contains_key(key) ==> accepted_all(
            state,
            packets,
        ).flows[key] == accepted_all(state, own_fragments(packets, key)).flows[key],
{
    lemma_mixed(state, packets, key);
}

proof fn lemma_mixed(state: ReassemblerView, packets: Seq<IpPacketView>, key: IpFragmentKey)
    requires
        never_evicted(state, packets, key),
    ensures
        delivered_for(state, packets, key) == delivered_all(state, own_fragments(packets, key)),
        flow_of(accepted_all(state, packets), key) == flow_of(
            accepted_all(state, own_fragments(packets, key)),
            key,
        ),
    decreases packets.len(),
{
    if packets.len() > 0 {
        let before = packets.drop_last();
        let packet = packets.last();
        lemma_mixed(state, before, key);
        if is_own(packet, key) {
            let own = own_fragments(packets, key);
            assert(own.drop_last() =~= own_fragments(before, key));
            lemma_own_step(
                accepted_all(state, before),
                accepted_all(state, own_fragments(before, key)),
                packet,
                key,
            );
        } else {
            lemma_other_step(accepted_all(state, before), packet, key);
        }
    }
}

/// The datagram that a fragment makes whole tells of the run of its own fragments, whatever
/// came between them, as long as it did not have to make room.
pub proof fn law_mixed_datagram_describes_its_run(
    state: ReassemblerView,
    packets: Seq<IpPacketView>,
    key: IpFragmentKey,
)
    requires
        !state.flows.contains_key(key),
        packets.len() > 0,
        is_own(packets.last(), key),
        never_evicted(state, packets, key),
        delivered_for(state, packets.drop_last(), key) == Seq::<IpDatagramView>::empty(),
        delivered(accepted_all(state, packets.drop_last()), packets.last()).len() > 0,
    ensures
        delivered(accepted_all(state, packets.drop_last()), packets.last()).len() == 1,
        describes(
            delivered(accepted_all(state, packets.drop_last()), packets.last())[0],
            own_fragments(packets, key),
        ),
{
    let own = own_fragments(packets, key);
    let before = packets.drop_last();
    lemma_mixed(state, packets, key);
    lemma_mixed(state, before, key);
    lemma_own_are_own(packets, key);
    assert(own.drop_last() =~= own_fragments(before, key));
    let made = delivered(accepted_all(state, before), packets.last());
    assert(delivered_for(state, packets, key) =~= made);
    law_datagram_describes_its_run(state, own, key);
}

// Datagrams that are cut into pieces.

/// `starts` are the places at which a datagram is cut into pieces that are not empty.
pub open spec fn is_cut(starts: Seq<usize>, payload: Seq<u8>) -> bool {
    &&& starts.len() > 0
    &&& starts[0] == 0
    &&& forall|i: int, j: int|
        0 <= i < j < starts.len() ==> #[trigger] starts[i] < #[trigger] starts[j]
    &&& forall|i: int| 0 <= i < starts.len() ==> #[trigger] starts[i] < payload.len()
}

/// Where a piece ends.
pub open spec fn piece_end(starts: Seq<usize>, payload: Seq<u8>, i: int) -> int {
    if i + 1 < starts.len() {
        starts[i + 1] as int
    } else {
        payload.len() as int
    }
}

/// `packet` carries piece `i` of the datagram. All pieces but the last say that more follow.
pub open spec fn is_piece(
    packet: IpPacketView,
    key: IpFragmentKey,
    payload: Seq<u8>,
    starts: Seq<usize>,
    i: int,
) -> bool {
    &&& 0 <= i < starts.len()
    &&& packet.fragment matches Some(fragment)
    &&& fragment.key == key
    &&& fragment.offset_bytes == starts[i]
    &&& fragment.more_fragments == (i + 1 < starts.len())
    &&& packet.ip_payload == payload.subrange(starts[i] as int, piece_end(starts, payload, i))
}

/// The packets carry pieces of the datagram, packet `j` piece `which[j]`.
pub open spec fn are_pieces(
    packets: Seq<IpPacketView>,
    key: IpFragmentKey,
    payload: Seq<u8>,
    starts: Seq<usize>,
    which: Seq<int>,
) -> bool {
    &&& which.len() == packets.len()
    &&& forall|j: int|
        0 <= j < packets.len() ==> is_piece(
            #[trigger] packets[j],
            key,
            payload,
            starts,
            which[j],
        )
}

proof fn lemma_piece_ends_inside(starts: Seq<usize>, payload: Seq<u8>, i: int)
    requires
        is_cut(starts, payload),
        0 <= i < starts.len(),
    ensures
        starts[i] < piece_end(starts, payload, i) <= payload.len(),
        i + 1 < starts.len() <==> piece_end(starts, payload, i) < payload.len(),
{
    assert(starts[i] < payload.len());
    if i + 1 < starts.len() {
        assert(starts[i] < starts[i + 1]);
        assert(starts[i + 1] < payload.len());
    }
}

/// Some piece holds each position: one of the first `count`, if it lies before their end.
proof fn lemma_piece_at(starts: Seq<usize>, payload: Seq<u8>, at: int, count: int) -> (i: int)
    requires
        is_cut(starts, payload),
        0 < count <= starts.len(),
        0 <= at < piece_end(starts, payload, count - 1),
    ensures
        0 <= i < starts.len(),
        starts[i] <= at < piece_end(starts, payload, i),
    decreases count,
{
    if starts[count - 1] <= at {
        count - 1
    } else {
        assert(count > 1);
        lemma_piece_at(starts, payload, at, count - 1)
    }
}

/// The start of a piece lies in no other piece.
proof fn lemma_pieces_apart(starts: Seq<usize>, payload: Seq<u8>, i: int, j: int)
    requires
        is_cut(starts, payload),
        0 <= i < starts.len(),
        0 <= j < starts.len(),
        starts[j] <= starts[i] < piece_end(starts, payload, j),
    ensures
        i == j,
{
    if i < j {
        assert(starts[i] < starts[j]);
    } else if j < i {
        assert(starts[j] < starts[i]);
        if j + 1 < i {
            assert(starts[j + 1] < starts[i]);
        }
    }
}

/// The last place of a number that occurs.
proof fn lemma_last_place(which: Seq<int>, i: int) -> (j: int)
    requires
        which.contains(i),
    ensures
        0 <= j < which.len(),
        which[j] == i,
        forall|k: int| j < k < which.len() ==> #[trigger] which[k] != i,
    decreases which.len(),
{
    if which.last() == i {
        which.len() - 1
    } else {
        let shorter = which.drop_last();
        let at = choose|at: int| 0 <= at < which.len() && which[at] == i;
        assert(shorter[at] == i);
        let j = lemma_last_place(shorter, i);
        assert forall|k: int| j < k < which.len() implies #[trigger] which[k] != i by {
            if k < shorter.len() {
                assert(shorter[k] == which[k]);
            }
        }
        j
    }
}

proof fn lemma_offsets(packets: Seq<IpPacketView>, offset: usize)
    ensures
        offsets(packets).contains(offset) <==> exists|j: int|
            0 <= j < packets.len() && offset_of(#[trigger] packets[j]) == offset,
        offsets(packets).finite(),
    decreases packets.len(),
{
    if packets.len() > 0 {
        let before = packets.drop_last();
        lemma_offsets(before, offset);
        if offsets(before).contains(offset) {
            let j = choose|j: int|
                0 <= j < before.len() && offset_of(#[trigger] before[j]) == offset;
            assert(offset_of(packets[j]) == offset);
        }
        if exists|j: int| 0 <= j < packets.len() && offset_of(#[trigger] packets[j]) == offset {
            let j = choose|j: int|
                0 <= j < packets.len() && offset_of(#[trigger] packets[j]) == offset;
            if j < before.len() {
                assert(offset_of(before[j]) == offset);
            }
        }
        assert(offset_of(packets[packets.len() - 1]) == offset_of(packets.last()));
    }
}

proof fn lemma_pieces_are_fragments(
    packets: Seq<IpPacketView>,
    key: IpFragmentKey,
    payload: Seq<u8>,
    starts: Seq<usize>,
    which: Seq<int>,
)
    requires
        is_cut(starts, payload),
        are_pieces(packets, key, payload, starts, which),
    ensures
        forall|j: int| 0 <= j < packets.len() ==> is_fragment_of(#[trigger] packets[j], key, payload),
{
    assert forall|j: int| 0 <= j < packets.len() implies is_fragment_of(
        #[trigger] packets[j],
        key,
        payload,
    ) by {
        assert(is_piece(packets[j], key, payload, starts, which[j]));
        lemma_piece_ends_inside(starts, payload, which[j]);
    }
}

/// Pieces that do not hold piece `i` do not reach its start.
proof fn lemma_piece_missing(
    packets: Seq<IpPacketView>,
    key: IpFragmentKey,
    payload: Seq<u8>,
    starts: Seq<usize>,
    which: Seq<int>,
    i: int,
)
    requires
        is_cut(starts, payload),
        are_pieces(packets, key, payload, starts, which),
        0 <= i < starts.len(),
        !which.contains(i),
    ensures
        !all_arrived(packets, payload.len()),
{
    let at = starts[i] as int;
    assert(starts[i] < payload.len());
    if arrived(packets, at) {
        let j = choose|j: int| holds_at(packets, j, at);
        assert(holds_at(packets, j, at));
        assert(is_piece(packets[j], key, payload, starts, which[j]));
        lemma_piece_ends_inside(starts, payload, which[j]);
        lemma_pieces_apart(starts, payload, i, which[j]);
    }
}

/// A datagram that is cut into pieces which arrive in any order, each as often as may be and
/// with packets of other datagrams between them, is given back by the piece that was still
/// missing, and nothing is delivered for it before. It counts its pieces, has the earliest
/// time, the greatest frame length and the rest from the first packet. Afterwards nothing of
/// it is left. All this holds while this datagram does not have to make room for another.
pub proof fn law_pieces_give_back_datagram(
    state: ReassemblerView,
    packets: Seq<IpPacketView>,
    key: IpFragmentKey,
    payload: Seq<u8>,
    starts: Seq<usize>,
    which: Seq<int>,
)
    requires
        !state.flows.contains_key(key),
        payload.len() <= usize::MAX,
        is_cut(starts, payload),
        packets.len() > 0,
        is_own(packets.last(), key),
        never_evicted(state, packets, key),
        are_pieces(own_fragments(packets, key), key, payload, starts, which),
        forall|i: int| 0 <= i < starts.len() ==> #[trigger] which.contains(i),
        !which.drop_last().contains(which.last()),
    ensures
        delivered_for(state, packets.drop_last(), key) == Seq::<IpDatagramView>::empty(),
        ({
            let made = delivered(accepted_all(state, packets.drop_last()), packets.last());
            &&& made.len() == 1
            &&& made[0].ip_payload == payload
            &&& made[0].fragment_count == told(starts.len())
            &&& made[0].was_fragmented
            &&& describes(made[0], own_fragments(packets, key))
        }),
        !accepted_all(state, packets).flows.contains_key(key),
{
    let own = own_fragments(packets, key);
    let before = own.drop_last();
    let rest = packets.drop_last();
    let missing = which.last();
    lemma_pieces_are_fragments(own, key, payload, starts, which);
    assert(is_piece(own[own.len() - 1], key, payload, starts, which[own.len() - 1]));
    // Before the last piece, nothing is delivered.
    assert forall|n: int| 0 <= n < own.len() implies !all_arrived(
        #[trigger] own.take(n),
        payload.len(),
    ) by {
        let part = which.take(n);
        assert(are_pieces(own.take(n), key, payload, starts, part)) by {
            assert forall|j: int| 0 <= j < n implies is_piece(
                #[trigger] own.take(n)[j],
                key,
                payload,
                starts,
                part[j],
            ) by {
                assert(is_piece(own[j], key, payload, starts, which[j]));
            }
        }
        if part.contains(missing) {
            let k = choose|k: int| 0 <= k < part.len() && part[k] == missing;
            assert(which.drop_last()[k] == missing);
        }
        lemma_piece_missing(own.take(n), key, payload, starts, part, missing);
    }
    assert(own.take(own.len() - 1) =~= before);
    assert forall|j: int| 0 <= j < before.len() implies is_fragment_of(
        #[trigger] before[j],
        key,
        payload,
    ) by {
        assert(before[j] == own[j]);
    }
    law_missing_fragment_delivers_nothing(state, before, key, payload);
    // With it, every position is kept.
    assert forall|at: int| 0 <= at < payload.len() implies #[trigger] kept(own, at) by {
        let i = lemma_piece_at(starts, payload, at, starts.len() as int);
        assert(which.contains(i));
        let j = lemma_last_place(which, i);
        assert(is_piece(own[j], key, payload, starts, which[j]));
        lemma_piece_ends_inside(starts, payload, i);
        assert(holds_at(own, j, at));
        assert(latest_at(own, j)) by {
            assert forall|k: int| j < k < own.len() implies offset_of(#[trigger] own[k])
                != offset_of(own[j]) by {
                assert(is_piece(own[k], key, payload, starts, which[k]));
                assert(which[k] != i);
                if which[k] < i {
                    assert(starts[which[k]] < starts[i]);
                } else {
                    assert(starts[i] < starts[which[k]]);
                }
            }
        }
    }
    assert(all_kept(own, payload.len()));
    law_fragments_give_back_datagram(state, own, key, payload);
    // The pieces are counted.
    assert(offsets(own) =~= starts.to_set()) by {
        assert forall|offset: usize| #[trigger]
            offsets(own).contains(offset) <==> starts.to_set().contains(offset) by {
            lemma_offsets(own, offset);
            if offsets(own).contains(offset) {
                let j = choose|j: int|
                    0 <= j < own.len() && offset_of(#[trigger] own[j]) == offset;
                assert(is_piece(own[j], key, payload, starts, which[j]));
                assert(starts[which[j]] == offset);
            }
            if starts.to_set().contains(offset) {
                let i = choose|i: int| 0 <= i < starts.len() && starts[i] == offset;
                assert(which.contains(i));
                let j = choose|j: int| 0 <= j < which.len() && which[j] == i;
                assert(is_piece(own[j], key, payload, starts, which[j]));
                assert(offset_of(own[j]) == offset);
            }
        }
    }
    assert(starts.no_duplicates());
    starts.unique_seq_to_set();
    // The other packets change nothing.
    lemma_mixed(state, packets, key);
    lemma_mixed(state, rest, key);
    assert(before =~= own_fragments(rest, key));
    let made = delivered(accepted_all(state, rest), packets.last());
    assert(delivered_for(state, packets, key) =~= made);
}

} // verus!
