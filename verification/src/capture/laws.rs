//! What reassembly promises as a whole.

use crate::capture::ip_frag::{IpFragmentInfo, IpFragmentKey, IpPacketView};
use crate::capture::ranges::block;
use crate::capture::reassembly::{
    absorbed, accepted, assembled, byte_from, chunk_holds, delivered, flow_complete,
    flow_datagram, fresh_flow, grown_flow, with_room, without_oldest, FlowView, IpDatagramView,
    ReassemblerView,
};
use vstd::prelude::*;

verus! {

/// The reassembler after a run of packets.
pub open spec fn accepted_all(
    state: ReassemblerView,
    packets: Seq<IpPacketView>,
) -> ReassemblerView
    decreases packets.len(),
{
    if packets.len() == 0 {
        state
    } else {
        accepted(accepted_all(state, packets.drop_last()), packets.last())
    }
}

/// The datagrams that a run of packets makes whole, in order.
pub open spec fn delivered_all(
    state: ReassemblerView,
    packets: Seq<IpPacketView>,
) -> Seq<IpDatagramView>
    decreases packets.len(),
{
    if packets.len() == 0 {
        seq![]
    } else {
        delivered_all(state, packets.drop_last()) + delivered(
            accepted_all(state, packets.drop_last()),
            packets.last(),
        )
    }
}

/// `packet` is a fragment of the datagram `payload`, cut out at its offset.
pub open spec fn is_fragment_of(
    packet: IpPacketView,
    key: IpFragmentKey,
    payload: Seq<u8>,
) -> bool {
    &&& packet.fragment matches Some(fragment)
    &&& fragment.key == key
    &&& fragment.offset_bytes + packet.ip_payload.len() <= payload.len()
    &&& packet.ip_payload == payload.subrange(
        fragment.offset_bytes as int,
        fragment.offset_bytes + packet.ip_payload.len(),
    )
    &&& fragment.more_fragments == (fragment.offset_bytes + packet.ip_payload.len()
        < payload.len())
}

/// The offset of a fragment.
pub open spec fn offset_of(packet: IpPacketView) -> usize {
    packet.fragment->0.offset_bytes
}

/// Packet `j` of the run holds position `i` of its datagram.
pub open spec fn holds_at(packets: Seq<IpPacketView>, j: int, i: int) -> bool {
    &&& 0 <= j < packets.len()
    &&& offset_of(packets[j]) <= i < offset_of(packets[j]) + packets[j].ip_payload.len()
}

/// Some packet of the run holds position `i`.
pub open spec fn arrived(packets: Seq<IpPacketView>, i: int) -> bool {
    exists|j: int| holds_at(packets, j, i)
}

/// The fragments reach every one of the first `len` positions.
pub open spec fn all_arrived(packets: Seq<IpPacketView>, len: nat) -> bool {
    forall|i: int| 0 <= i < len ==> #[trigger] arrived(packets, i)
}

/// No packet behind packet `j` has its offset.
pub open spec fn latest_at(packets: Seq<IpPacketView>, j: int) -> bool {
    &&& 0 <= j < packets.len()
    &&& forall|k: int|
        j < k < packets.len() ==> offset_of(#[trigger] packets[k]) != offset_of(packets[j])
}

/// A fragment holds position `i` that no later fragment at the same offset has
/// replaced.
pub open spec fn kept(packets: Seq<IpPacketView>, i: int) -> bool {
    exists|j: int| #[trigger] holds_at(packets, j, i) && latest_at(packets, j)
}

/// Every one of the first `len` positions is kept.
pub open spec fn all_kept(packets: Seq<IpPacketView>, len: nat) -> bool {
    forall|i: int| 0 <= i < len ==> #[trigger] kept(packets, i)
}

/// The flow holds what the run of fragments brought.
spec fn tracks(state: FlowView, packets: Seq<IpPacketView>, payload: Seq<u8>) -> bool {
    &&& state.total_len matches Some(len) ==> len == payload.len()
    &&& forall|j: int|
        0 <= j < packets.len() && offset_of(#[trigger] packets[j]) + packets[j].ip_payload.len()
            == payload.len() ==> state.total_len is Some
    &&& forall|i: int| #[trigger] state.covered.contains(i) <==> arrived(packets, i)
    &&& forall|i: int| #[trigger] state.covered.contains(i) ==> 0 <= i < payload.len()
    &&& forall|o: usize| #[trigger]
        state.chunks.contains_key(o) ==> o + state.chunks[o].len() <= payload.len()
            && state.chunks[o] == payload.subrange(o as int, o + state.chunks[o].len())
    &&& forall|j: int| #[trigger]
        latest_at(packets, j) ==> state.chunks.contains_key(offset_of(packets[j]))
            && state.chunks[offset_of(packets[j])] == packets[j].ip_payload
}

proof fn lemma_tracks_step(
    state: FlowView,
    packets: Seq<IpPacketView>,
    packet: IpPacketView,
    fragment: IpFragmentInfo,
    payload: Seq<u8>,
)
    requires
        tracks(state, packets, payload),
        packet.fragment == Some(fragment),
        is_fragment_of(packet, fragment.key, payload),
        payload.len() <= usize::MAX,
    ensures
        tracks(absorbed(state, packet, fragment), packets.push(packet), payload),
{
    let after = absorbed(state, packet, fragment);
    let all = packets.push(packet);
    let n = packets.len() as int;
    let end = fragment.offset_bytes + packet.ip_payload.len();
    assert(after.total_len matches Some(len) ==> len == payload.len());
    assert forall|j: int|
        0 <= j < all.len() && offset_of(#[trigger] all[j]) + all[j].ip_payload.len()
            == payload.len() implies after.total_len is Some by {
        if j < n {
            assert(all[j] == packets[j]);
        }
    }
    assert forall|i: int| #[trigger] after.covered.contains(i) <==> arrived(all, i) by {
        if state.covered.contains(i) {
            let j = choose|j: int| holds_at(packets, j, i);
            assert(holds_at(all, j, i));
        }
        if fragment.offset_bytes <= i < end {
            assert(holds_at(all, n, i));
        }
        if arrived(all, i) {
            let j = choose|j: int| holds_at(all, j, i);
            if j < n {
                assert(holds_at(packets, j, i));
                assert(state.covered.contains(i));
            }
        }
    }
    assert forall|j: int| #[trigger] latest_at(all, j) implies after.chunks.contains_key(
        offset_of(all[j]),
    ) && after.chunks[offset_of(all[j])] == all[j].ip_payload by {
        if j < n {
            assert(offset_of(all[n]) != offset_of(all[j]));
            assert(latest_at(packets, j)) by {
                assert forall|k: int| j < k < packets.len() implies offset_of(
                    #[trigger] packets[k],
                ) != offset_of(packets[j]) by {
                    assert(all[k] == packets[k]);
                }
            }
        }
    }
}

proof fn lemma_complete(state: FlowView, packets: Seq<IpPacketView>, payload: Seq<u8>)
    requires
        tracks(state, packets, payload),
        payload.len() > 0,
    ensures
        flow_complete(state) <==> all_arrived(packets, payload.len()),
{
    if flow_complete(state) {
        let end = choose|end: int|
            0 < end && payload.len() <= end && state.covered == #[trigger] block(0, end);
        assert forall|i: int| 0 <= i < payload.len() implies #[trigger] arrived(packets, i) by {
            assert(block(0, end).contains(i));
            assert(state.covered.contains(i));
        }
    }
    if all_arrived(packets, payload.len()) {
        assert forall|i: int| 0 <= i < payload.len() implies state.covered.contains(i) by {
            assert(arrived(packets, i));
        }
        assert(state.covered =~= block(0, payload.len() as int));
        let last = payload.len() - 1;
        assert(arrived(packets, last));
        let j = choose|j: int| holds_at(packets, j, last);
        assert(holds_at(packets, j, last));
        assert(state.total_len is Some) by {
            if offset_of(packets[j]) + packets[j].ip_payload.len() > payload.len() {
                assert(holds_at(packets, j, payload.len() as int));
                assert(state.covered.contains(payload.len() as int));
            }
        }
        assert(state.covered == block(0, payload.len() as int));
    }
}

proof fn lemma_byte_found(chunks: Map<usize, Seq<u8>>, payload: Seq<u8>, i: int, o: int, high: int)
    requires
        forall|o: usize| #[trigger]
            chunks.contains_key(o) ==> o + chunks[o].len() <= payload.len() && chunks[o]
                == payload.subrange(o as int, o + chunks[o].len()),
        chunk_holds(chunks, o, i),
        o <= high,
    ensures
        byte_from(chunks, i, high) == payload[i],
    decreases high - o,
{
    if chunk_holds(chunks, high, i) {
        assert(chunks.contains_key(high as usize));
    } else {
        lemma_byte_found(chunks, payload, i, o, high - 1);
    }
}

proof fn lemma_assembled(state: FlowView, packets: Seq<IpPacketView>, payload: Seq<u8>)
    requires
        tracks(state, packets, payload),
        all_kept(packets, payload.len()),
    ensures
        assembled(state.chunks, payload.len()) == payload,
{
    assert forall|i: int| 0 <= i < payload.len() implies byte_from(state.chunks, i, i)
        == payload[i] by {
        assert(kept(packets, i));
        let j = choose|j: int| #[trigger] holds_at(packets, j, i) && latest_at(packets, j);
        assert(latest_at(packets, j));
        let o = offset_of(packets[j]);
        assert(state.chunks.contains_key(o));
        assert(chunk_holds(state.chunks, o as int, i));
        lemma_byte_found(state.chunks, payload, i, o as int, i);
    }
    assert(assembled(state.chunks, payload.len()) =~= payload);
}

/// While fragments are missing, nothing is delivered and everything that came is kept.
proof fn lemma_incomplete_run(
    state: ReassemblerView,
    packets: Seq<IpPacketView>,
    key: IpFragmentKey,
    payload: Seq<u8>,
)
    requires
        !state.flows.contains_key(key),
        0 < payload.len() <= usize::MAX,
        forall|j: int| 0 <= j < packets.len() ==> is_fragment_of(#[trigger] packets[j], key, payload),
        forall|n: int| 0 <= n <= packets.len() ==> !all_arrived(#[trigger] packets.take(n), payload.len()),
    ensures
        delivered_all(state, packets) == Seq::<IpDatagramView>::empty(),
        accepted_all(state, packets).flows.contains_key(key) <==> packets.len() > 0,
        packets.len() > 0 ==> tracks(
            accepted_all(state, packets).flows[key],
            packets,
            payload,
        ),
    decreases packets.len(),
{
    if packets.len() > 0 {
        let before = packets.drop_last();
        let packet = packets.last();
        assert forall|n: int| 0 <= n <= before.len() implies !all_arrived(
            #[trigger] before.take(n),
            payload.len(),
        ) by {
            assert(before.take(n) =~= packets.take(n));
        }
        assert forall|j: int| 0 <= j < before.len() implies is_fragment_of(
            #[trigger] before[j],
            key,
            payload,
        ) by {
            assert(before[j] == packets[j]);
        }
        lemma_incomplete_run(state, before, key, payload);
        lemma_run_step(accepted_all(state, before), before, packet, key, payload);
        assert(before.push(packet) =~= packets);
        assert(packets.take(packets.len() as int) =~= packets);
    }
}

/// One more fragment of a datagram of which `before` has come.
proof fn lemma_run_step(
    state: ReassemblerView,
    before: Seq<IpPacketView>,
    packet: IpPacketView,
    key: IpFragmentKey,
    payload: Seq<u8>,
)
    requires
        state.flows.contains_key(key) <==> before.len() > 0,
        before.len() > 0 ==> tracks(state.flows[key], before, payload),
        0 < payload.len() <= usize::MAX,
        is_fragment_of(packet, key, payload),
    ensures
        ({
            let flow = grown_flow(state, packet, packet.fragment->0);
            &&& tracks(flow, before.push(packet), payload)
            &&& flow_complete(flow) <==> all_arrived(before.push(packet), payload.len())
            &&& if flow_complete(flow) {
                &&& delivered(state, packet) == seq![flow_datagram(flow)]
                &&& !accepted(state, packet).flows.contains_key(key)
            } else {
                &&& delivered(state, packet) == Seq::<IpDatagramView>::empty()
                &&& accepted(state, packet).flows.contains_key(key)
                &&& accepted(state, packet).flows[key] == flow
            }
        }),
{
    let fragment = packet.fragment->0;
    let base = if state.flows.contains_key(key) {
        state.flows[key]
    } else {
        fresh_flow(packet)
    };
    assert(tracks(base, before, payload));
    lemma_tracks_step(base, before, packet, fragment, payload);
    lemma_complete(grown_flow(state, packet, fragment), before.push(packet), payload);
}

// What a run of fragments makes of its datagram.

/// `packet` is a fragment of the datagram with the given key.
pub open spec fn is_own(packet: IpPacketView, key: IpFragmentKey) -> bool {
    packet.fragment matches Some(fragment) && fragment.key == key
}

/// The datagram that a run of fragments makes, the first of which began it.
pub open spec fn run_flow(packets: Seq<IpPacketView>) -> FlowView
    decreases packets.len(),
{
    let packet = packets.last();
    absorbed(
        if packets.len() <= 1 {
            fresh_flow(packet)
        } else {
            run_flow(packets.drop_last())
        },
        packet,
        packet.fragment->0,
    )
}

/// The offsets at which fragments came.
pub open spec fn offsets(packets: Seq<IpPacketView>) -> Set<usize>
    decreases packets.len(),
{
    if packets.len() == 0 {
        Set::empty()
    } else {
        offsets(packets.drop_last()).insert(offset_of(packets.last()))
    }
}

/// A count as far as it can be told.
pub open spec fn told(count: nat) -> u32 {
    if count <= u32::MAX {
        count as u32
    } else {
        u32::MAX
    }
}

/// A datagram tells of the run of fragments that made it: the earliest time, the greatest
/// frame length, the direction, flow and identification of the first, and how many
/// distinct pieces there were.
pub open spec fn describes(datagram: IpDatagramView, packets: Seq<IpPacketView>) -> bool {
    &&& exists|j: int|
        0 <= j < packets.len() && (#[trigger] packets[j]).socket_timestamp
            == datagram.socket_timestamp
    &&& forall|j: int|
        0 <= j < packets.len() ==> datagram.socket_timestamp.unix_nanos <= (
        #[trigger] packets[j]).socket_timestamp.unix_nanos
    &&& exists|j: int|
        0 <= j < packets.len() && (#[trigger] packets[j]).frame_len == datagram.frame_len
    &&& forall|j: int|
        0 <= j < packets.len() ==> (#[trigger] packets[j]).frame_len <= datagram.frame_len
    &&& datagram.direction == packets[0].direction
    &&& datagram.flow == packets[0].flow
    &&& datagram.ip_identification == packets[0].ip_identification
    &&& datagram.fragment_count == told(offsets(packets).len())
    &&& datagram.was_fragmented
}

proof fn lemma_run_described(packets: Seq<IpPacketView>)
    requires
        packets.len() > 0,
        forall|j: int| 0 <= j < packets.len() ==> (#[trigger] packets[j]).fragment is Some,
    ensures
        describes(flow_datagram(run_flow(packets)), packets),
        run_flow(packets).chunks.dom() == offsets(packets),
    decreases packets.len(),
{
    let flow = run_flow(packets);
    let n = packets.len() - 1;
    let packet = packets[n];
    if n == 0 {
        assert(offsets(packets.drop_last()) =~= Set::empty());
        assert(flow.chunks.dom() =~= offsets(packets));
        assert(packets[0].socket_timestamp == flow.socket_timestamp);
        assert(packets[0].frame_len == flow.frame_len);
    } else {
        let before = packets.drop_last();
        assert forall|j: int| 0 <= j < before.len() implies (
        #[trigger] before[j]).fragment is Some by {
            assert(before[j] == packets[j]);
        }
        lemma_run_described(before);
        let earlier = flow_datagram(run_flow(before));
        assert(flow.chunks.dom() =~= offsets(packets));
        let time_at = choose|j: int|
            0 <= j < before.len() && (#[trigger] before[j]).socket_timestamp
                == earlier.socket_timestamp;
        let len_at = choose|j: int|
            0 <= j < before.len() && (#[trigger] before[j]).frame_len == earlier.frame_len;
        assert(packets[time_at].socket_timestamp == earlier.socket_timestamp);
        assert(packets[len_at].frame_len == earlier.frame_len);
        assert(packets[n].socket_timestamp == flow.socket_timestamp
            || packets[time_at].socket_timestamp == flow.socket_timestamp);
        assert(packets[n].frame_len == flow.frame_len || packets[len_at].frame_len
            == flow.frame_len);
        assert forall|j: int| 0 <= j < packets.len() implies flow.socket_timestamp.unix_nanos <= (
        #[trigger] packets[j]).socket_timestamp.unix_nanos && packets[j].frame_len
            <= flow.frame_len by {
            if j < n {
                assert(before[j] == packets[j]);
            }
        }
        assert(before[0] == packets[0]);
    }
}

/// As long as a run of fragments has delivered nothing, the reassembler holds what the run
/// makes.
proof fn lemma_run_flow(state: ReassemblerView, packets: Seq<IpPacketView>, key: IpFragmentKey)
    requires
        !state.flows.contains_key(key),
        forall|j: int| 0 <= j < packets.len() ==> is_own(#[trigger] packets[j], key),
        delivered_all(state, packets) == Seq::<IpDatagramView>::empty(),
    ensures
        accepted_all(state, packets).flows.contains_key(key) <==> packets.len() > 0,
        packets.len() > 0 ==> accepted_all(state, packets).flows[key] == run_flow(packets),
    decreases packets.len(),
{
    if packets.len() > 0 {
        let before = packets.drop_last();
        let last = delivered(accepted_all(state, before), packets.last());
        assert forall|j: int| 0 <= j < before.len() implies is_own(#[trigger] before[j], key) by {
            assert(before[j] == packets[j]);
        }
        assert((delivered_all(state, before) + last).len() == 0);
        assert(delivered_all(state, before) =~= seq![]);
        lemma_run_flow(state, before, key);
        assert(is_own(packets[packets.len() - 1], key));
        assert(last.len() == 0);
    }
}

/// The datagram that the last of a run of fragments makes whole tells of the whole run.
pub proof fn law_datagram_describes_its_run(
    state: ReassemblerView,
    packets: Seq<IpPacketView>,
    key: IpFragmentKey,
)
    requires
        !state.flows.contains_key(key),
        packets.len() > 0,
        forall|j: int| 0 <= j < packets.len() ==> is_own(#[trigger] packets[j], key),
        delivered_all(state, packets.drop_last()) == Seq::<IpDatagramView>::empty(),
        delivered_all(state, packets).len() > 0,
    ensures
        delivered_all(state, packets).len() == 1,
        describes(delivered_all(state, packets)[0], packets),
{
    let before = packets.drop_last();
    assert forall|j: int| 0 <= j < before.len() implies is_own(#[trigger] before[j], key) by {
        assert(before[j] == packets[j]);
    }
    lemma_run_flow(state, before, key);
    assert forall|j: int| 0 <= j < packets.len() implies (
    #[trigger] packets[j]).fragment is Some by {
        assert(is_own(packets[j], key));
    }
    lemma_run_described(packets);
    assert(is_own(packets[packets.len() - 1], key));
    assert(delivered_all(state, packets) =~= seq![flow_datagram(run_flow(packets))]);
}

/// Fragments of one datagram, in any order and however often each comes, give back
/// that datagram as soon as they reach all of it, and nothing before. It tells how many
/// distinct pieces there were. Afterwards nothing of it is left.
pub proof fn law_fragments_give_back_datagram(
    state: ReassemblerView,
    packets: Seq<IpPacketView>,
    key: IpFragmentKey,
    payload: Seq<u8>,
)
    requires
        !state.flows.contains_key(key),
        0 < payload.len() <= usize::MAX,
        packets.len() > 0,
        forall|j: int| 0 <= j < packets.len() ==> is_fragment_of(#[trigger] packets[j], key, payload),
        forall|n: int| 0 <= n < packets.len() ==> !all_arrived(#[trigger] packets.take(n), payload.len()),
        all_kept(packets, payload.len()),
    ensures
        delivered_all(state, packets).len() == 1,
        delivered_all(state, packets)[0].ip_payload == payload,
        delivered_all(state, packets)[0].was_fragmented,
        delivered_all(state, packets)[0].fragment_count == told(offsets(packets).len()),
        describes(delivered_all(state, packets)[0], packets),
        !accepted_all(state, packets).flows.contains_key(key),
{
    let before = packets.drop_last();
    let packet = packets.last();
    assert forall|n: int| 0 <= n <= before.len() implies !all_arrived(
        #[trigger] before.take(n),
        payload.len(),
    ) by {
        assert(before.take(n) =~= packets.take(n));
    }
    assert forall|j: int| 0 <= j < before.len() implies is_fragment_of(
        #[trigger] before[j],
        key,
        payload,
    ) by {
        assert(before[j] == packets[j]);
    }
    lemma_incomplete_run(state, before, key, payload);
    let middle = accepted_all(state, before);
    lemma_run_step(middle, before, packet, key, payload);
    assert(before.push(packet) =~= packets);
    assert(all_arrived(packets, payload.len())) by {
        assert forall|i: int| 0 <= i < payload.len() implies #[trigger] arrived(packets, i) by {
            assert(kept(packets, i));
        }
    }
    let flow = grown_flow(middle, packet, packet.fragment->0);
    lemma_assembled(flow, packets, payload);
    assert(flow.total_len->0 == payload.len());
    assert(delivered_all(state, packets) =~= seq![flow_datagram(flow)]);
    assert forall|j: int| 0 <= j < packets.len() implies is_own(#[trigger] packets[j], key) by {
        assert(is_fragment_of(packets[j], key, payload));
    }
    law_datagram_describes_its_run(state, packets, key);
}

/// While some position of a datagram has not come in any fragment, none of the
/// fragments delivers anything.
pub proof fn law_missing_fragment_delivers_nothing(
    state: ReassemblerView,
    packets: Seq<IpPacketView>,
    key: IpFragmentKey,
    payload: Seq<u8>,
)
    requires
        !state.flows.contains_key(key),
        0 < payload.len() <= usize::MAX,
        forall|j: int| 0 <= j < packets.len() ==> is_fragment_of(#[trigger] packets[j], key, payload),
        !all_arrived(packets, payload.len()),
    ensures
        delivered_all(state, packets) == Seq::<IpDatagramView>::empty(),
{
    assert forall|n: int| 0 <= n <= packets.len() implies !all_arrived(
        #[trigger] packets.take(n),
        payload.len(),
    ) by {
        if all_arrived(packets.take(n), payload.len()) {
            assert forall|i: int| 0 <= i < payload.len() implies #[trigger] arrived(packets, i) by {
                assert(arrived(packets.take(n), i));
                let j = choose|j: int| holds_at(packets.take(n), j, i);
                assert(holds_at(packets.take(n), j, i));
                assert(holds_at(packets, j, i));
            }
        }
    }
    lemma_incomplete_run(state, packets, key, payload);
}

/// The reassembler keeps no more datagrams than it may, and every one of them is on
/// the list from which the oldest is picked.
pub open spec fn bounded(state: ReassemblerView) -> bool {
    &&& state.flows.dom().finite()
    &&& state.flows.dom().len() <= state.capacity
    &&& forall|key: IpFragmentKey| #[trigger]
        state.flows.contains_key(key) ==> state.order.contains(key)
}

proof fn lemma_without_oldest_shrinks(
    flows: Map<IpFragmentKey, FlowView>,
    order: Seq<IpFragmentKey>,
)
    requires
        flows.dom().finite(),
        forall|key: IpFragmentKey| #[trigger] flows.contains_key(key) ==> order.contains(key),
    ensures
        ({
            let (kept, rest) = without_oldest(flows, order);
            &&& kept.dom().finite()
            &&& kept.dom().len() == (if flows.dom().len() > 0 {
                flows.dom().len() - 1
            } else {
                0
            })
            &&& kept.dom().subset_of(flows.dom())
            &&& forall|key: IpFragmentKey| #[trigger] kept.contains_key(key) ==> rest.contains(key)
            &&& forall|key: IpFragmentKey| #[trigger]
                kept.contains_key(key) ==> kept[key] == flows[key]
        }),
    decreases order.len(),
{
    if order.len() == 0 {
        if flows.dom().len() > 0 {
            let key = flows.dom().choose();
            assert(flows.contains_key(key));
            assert(order.contains(key));
        }
        assert forall|key: IpFragmentKey| #[trigger] flows.contains_key(key) implies false by {
            assert(order.contains(key));
        }
    } else {
        assert forall|key: IpFragmentKey| flows.contains_key(key) && key
            != order[0] implies order.skip(1).contains(key) by {
            let i = choose|i: int| 0 <= i < order.len() && order[i] == key;
            assert(order.skip(1)[i - 1] == key);
        }
        if !flows.contains_key(order[0]) {
            assert forall|key: IpFragmentKey| #[trigger] flows.contains_key(key) implies order.skip(
                1,
            ).contains(key) by {}
            lemma_without_oldest_shrinks(flows, order.skip(1));
        }
    }
}

/// However many datagrams are begun, a reassembler that may keep some never keeps more
/// than it may.
pub proof fn law_kept_datagrams_bounded(state: ReassemblerView, packet: IpPacketView)
    requires
        bounded(state),
        state.capacity > 0,
    ensures
        bounded(accepted(state, packet)),
{
    match packet.fragment {
        None => {},
        Some(fragment) => {
            let key = fragment.key;
            lemma_without_oldest_shrinks(state.flows, state.order);
            let roomy = with_room(state, key);
            let after = accepted(state, packet);
            assert forall|k: IpFragmentKey| #[trigger] after.flows.contains_key(
                k,
            ) implies after.order.contains(k) by {
                if state.flows.contains_key(key) {
                } else if k == key {
                    assert(after.order.last() == key);
                } else {
                    assert(roomy.flows.contains_key(k));
                    let order = roomy.order.drop_last();
                    assert(order.contains(k)) by {
                        if state.flows.dom().len() == state.capacity {
                            assert(order =~= without_oldest(state.flows, state.order).1);
                        } else {
                            assert(order =~= state.order);
                        }
                    }
                    let i = choose|i: int| 0 <= i < order.len() && order[i] == k;
                    assert(after.order[i] == k);
                }
            }
        },
    }
}

/// A packet leaves every other datagram in the making as it is, but for the one that
/// makes room when all places are taken.
pub proof fn law_other_datagrams_untouched(
    state: ReassemblerView,
    packet: IpPacketView,
    other: IpFragmentKey,
)
    requires
        bounded(state),
        packet.fragment matches Some(fragment) ==> fragment.key != other,
        state.flows.contains_key(other),
    ensures
        ({
            let after = accepted(state, packet);
            let makes_room = packet.fragment matches Some(fragment) && !state.flows.contains_key(
                fragment.key,
            ) && state.flows.dom().len() == state.capacity;
            &&& !makes_room ==> after.flows.contains_key(other)
            &&& after.flows.contains_key(other) ==> after.flows[other] == state.flows[other]
        }),
{
    lemma_without_oldest_shrinks(state.flows, state.order);
}

} // verus!
