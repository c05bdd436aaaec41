//! What is kept of datagrams in the making, and what goes.

use crate::capture::capture::{
    datagram_packets, frame_packet, frame_packets, frame_state, frames_packets, frames_state,
    pushed,
};
use crate::capture::frame_laws::{
    is_link, law_packet_begins_behind_its_link_header, link_written, udp_written,
};
use crate::capture::ip_frag::{
    parsed_ipv4, parsed_ipv6, IpFragmentInfo, IpFragmentKey, IpPacketView,
};
use crate::capture::ipv6_laws::{
    are_extensions, chain_written, first_kind, ipv6_header_written, is_ipv6_header, is_v6_address,
    law_ipv6_datagram_reads_back, Extension, Ipv6Header,
};
use crate::capture::reassembly::{
    absorbed, accepted, assembled, byte_from, delivered, flow_complete, with_room, without_oldest,
    FlowView, ReassemblerView,
};
use crate::capture::socket::PacketFrame;
use crate::capture::wire_laws::{law_udp_data_reads_back, udp_header_written};
use vstd::prelude::*;

verus! {

/// The chunk at a place reaches a position.
pub open spec fn reaches(chunks: Map<usize, Seq<u8>>, start: usize, i: int) -> bool {
    chunks.contains_key(start) && start <= i < start + chunks[start].len()
}

/// Where chunks overlap, the byte is that of the chunk that starts last. A position that no
/// chunk reaches is zero.
pub proof fn law_later_chunk_counts(
    chunks: Map<usize, Seq<u8>>,
    total_len: nat,
    start: usize,
    i: int,
)
    requires
        0 <= i < total_len,
    ensures
        assembled(chunks, total_len).len() == total_len,
        reaches(chunks, start, i) && (forall|later: usize|
            start < later ==> !#[trigger] reaches(chunks, later, i)) ==> assembled(
            chunks,
            total_len,
        )[i] == chunks[start][i - start],
        (forall|any: usize| !#[trigger] reaches(chunks, any, i)) ==> assembled(
            chunks,
            total_len,
        )[i] == 0,
{
    if reaches(chunks, start, i) && (forall|later: usize|
        start < later ==> !#[trigger] reaches(chunks, later, i)) {
        lemma_byte_of_last(chunks, start, i, i);
    }
    if forall|any: usize| !#[trigger] reaches(chunks, any, i) {
        lemma_no_byte(chunks, i, i);
    }
}

proof fn lemma_byte_of_last(chunks: Map<usize, Seq<u8>>, start: usize, i: int, from: int)
    requires
        reaches(chunks, start, i),
        forall|later: usize| start < later ==> !#[trigger] reaches(chunks, later, i),
        start <= from,
    ensures
        byte_from(chunks, i, from) == chunks[start][i - start],
    decreases from,
{
    if from > start {
        if from <= usize::MAX {
            assert(!reaches(chunks, from as usize, i));
        }
        lemma_byte_of_last(chunks, start, i, from - 1);
    }
}

proof fn lemma_no_byte(chunks: Map<usize, Seq<u8>>, i: int, from: int)
    requires
        forall|any: usize| !#[trigger] reaches(chunks, any, i),
    ensures
        byte_from(chunks, i, from) == 0,
    decreases from + 1,
{
    if from >= 0 {
        if from <= usize::MAX {
            assert(!reaches(chunks, from as usize, i));
        }
        lemma_no_byte(chunks, i, from - 1);
    }
}

/// A fragment adds the positions that it fills to those that have come, and is kept at its
/// place, where it takes the place of an earlier one. The last tells the length. The earliest
/// time and the greatest frame length stay, and all else is that of the first fragment.
pub proof fn law_fragment_taken_in(
    state: FlowView,
    packet: IpPacketView,
    fragment: IpFragmentInfo,
    position: int,
    place: usize,
)
    requires
        fragment.offset_bytes + packet.ip_payload.len() <= usize::MAX,
    ensures
        ({
            let after = absorbed(state, packet, fragment);
            let end = fragment.offset_bytes + packet.ip_payload.len();
            &&& after.covered.contains(position) <==> state.covered.contains(position)
                || fragment.offset_bytes <= position < end
            &&& after.chunks.contains_key(fragment.offset_bytes)
            &&& after.chunks[fragment.offset_bytes] == packet.ip_payload
            &&& place != fragment.offset_bytes ==> (after.chunks.contains_key(place)
                <==> state.chunks.contains_key(place))
            &&& place != fragment.offset_bytes && state.chunks.contains_key(place)
                ==> after.chunks[place] == state.chunks[place]
            &&& fragment.more_fragments ==> after.total_len == state.total_len
            &&& !fragment.more_fragments ==> after.total_len == Some(end as usize)
            &&& after.socket_timestamp == state.socket_timestamp || after.socket_timestamp
                == packet.socket_timestamp
            &&& after.socket_timestamp.unix_nanos <= state.socket_timestamp.unix_nanos
            &&& after.socket_timestamp.unix_nanos <= packet.socket_timestamp.unix_nanos
            &&& after.frame_len == state.frame_len || after.frame_len == packet.frame_len
            &&& after.frame_len >= state.frame_len && after.frame_len >= packet.frame_len
            &&& after.direction == state.direction
            &&& after.flow == state.flow
            &&& after.ip_identification == state.ip_identification
        }),
{
}

/// A datagram is whole once its length is known and what has come is one block from its start
/// to its end or beyond, with no gap in it.
pub proof fn law_when_a_datagram_is_whole(state: FlowView, end: int, gap: int)
    ensures
        flow_complete(state) ==> state.total_len is Some,
        state.total_len is Some && 0 < end && state.total_len->0 <= end && (forall|i: int|
            #[trigger] state.covered.contains(i) <==> 0 <= i < end) ==> flow_complete(state),
        flow_complete(state) && 0 <= gap < state.total_len->0 ==> state.covered.contains(gap),
        flow_complete(state) && state.covered.contains(gap) && 0 <= end < gap
            ==> state.covered.contains(end),
        flow_complete(state) && gap < 0 ==> !state.covered.contains(gap),
{
    if state.total_len is Some && 0 < end && state.total_len->0 <= end && (forall|i: int|
        #[trigger] state.covered.contains(i) <==> 0 <= i < end) {
        assert(state.covered =~= crate::capture::ranges::block(0, end));
    }
}

/// A packet that is no fragment is delivered as it is, and nothing that is kept changes.
pub proof fn law_whole_packet_delivered(state: ReassemblerView, packet: IpPacketView)
    requires
        packet.fragment is None,
    ensures
        accepted(state, packet) == state,
        ({
            let all = delivered(state, packet);
            &&& all.len() == 1
            &&& all[0].ip_payload == packet.ip_payload
            &&& all[0].socket_timestamp == packet.socket_timestamp
            &&& all[0].frame_len == packet.frame_len
            &&& all[0].direction == packet.direction
            &&& all[0].flow == packet.flow
            &&& all[0].ip_identification == packet.ip_identification
            &&& all[0].fragment_count == 1
            &&& !all[0].was_fragmented
        }),
{
}

proof fn lemma_oldest(
    flows: Map<IpFragmentKey, FlowView>,
    order: Seq<IpFragmentKey>,
    i: int,
)
    requires
        0 <= i < order.len(),
        flows.contains_key(order[i]),
        forall|j: int| 0 <= j < i ==> !flows.contains_key(#[trigger] order[j]),
    ensures
        without_oldest(flows, order) == (flows.remove(order[i]), order.skip(i + 1)),
    decreases i,
{
    if i > 0 {
        let rest = order.skip(1);
        assert(!flows.contains_key(order[0]));
        assert forall|j: int| 0 <= j < i - 1 implies !flows.contains_key(#[trigger] rest[j]) by {
            assert(rest[j] == order[j + 1]);
        }
        lemma_oldest(flows, rest, i - 1);
        assert(rest.skip(i) =~= order.skip(i + 1));
    }
}

/// Where all places are taken, a datagram that is begun takes the place of the one that was
/// begun first of those that are kept, and of no other. It is the last in the order itself,
/// and the order of the others stays.
pub proof fn law_oldest_makes_room(
    state: ReassemblerView,
    key: IpFragmentKey,
    i: int,
    other: IpFragmentKey,
)
    requires
        !state.flows.contains_key(key),
        state.flows.dom().len() == state.capacity,
        0 <= i < state.order.len(),
        state.flows.contains_key(state.order[i]),
        forall|j: int| 0 <= j < i ==> !state.flows.contains_key(#[trigger] state.order[j]),
        other != state.order[i],
    ensures
        ({
            let roomy = with_room(state, key);
            &&& !roomy.flows.contains_key(state.order[i])
            &&& roomy.flows.contains_key(other) <==> state.flows.contains_key(other)
            &&& state.flows.contains_key(other) ==> roomy.flows[other] == state.flows[other]
            &&& roomy.order == state.order.skip(i + 1).push(key)
            &&& roomy.capacity == state.capacity
        }),
{
    lemma_oldest(state.flows, state.order, i);
}

/// A datagram that is begun while there is room, or that goes on, leaves all others alone.
pub proof fn law_room_is_used_first(state: ReassemblerView, key: IpFragmentKey)
    requires
        state.flows.contains_key(key) || state.flows.dom().len() != state.capacity,
    ensures
        with_room(state, key).flows == state.flows,
        with_room(state, key).capacity == state.capacity,
        with_room(state, key).order == if state.flows.contains_key(key) {
            state.order
        } else {
            state.order.push(key)
        },
{
}

// IPv6.

/// A UDP datagram that is sent in one IPv6 packet comes out of its frame as a packet with its
/// data, where IPv6 is asked for. Where it is not, nothing comes out.
pub proof fn law_ipv6_frame_gives_its_data(
    state: ReassemblerView,
    frame: PacketFrame<'_>,
    with_ipv6: bool,
    addresses: Seq<u8>,
    tags: Seq<(int, int)>,
    header: Ipv6Header,
    extensions: Seq<Extension>,
    ports: (int, int),
    checksum: Seq<u8>,
    data: Seq<u8>,
    padding: Seq<u8>,
)
    requires
        is_link(addresses, tags),
        is_ipv6_header(header),
        are_extensions(extensions),
        checksum.len() == 2,
        chain_written(extensions, 17).len() + 8 + data.len() < 65536,
        frame.data@ == link_written(addresses, tags, 0x86dd) + ipv6_header_written(
            header,
            first_kind(extensions, 17),
            chain_written(extensions, 17).len() + udp_written(ports, checksum, data).len() as int,
        ) + chain_written(extensions, 17) + (udp_written(ports, checksum, data) + padding),
    ensures
        frame_state(state, frame, with_ipv6) == state,
        !with_ipv6 ==> frame_packets(state, frame, with_ipv6).len() == 0,
        with_ipv6 ==> {
            let packets = frame_packets(state, frame, with_ipv6);
            &&& packets.len() == 1
            &&& packets[0].payload == data
            &&& is_v6_address(packets[0].flow.src_ip, header.source)
            &&& is_v6_address(packets[0].flow.dst_ip, header.destination)
            &&& packets[0].socket_timestamp == frame.socket_timestamp
            &&& packets[0].frame_len == frame.original_len
            &&& packets[0].direction == frame.direction
            &&& packets[0].ip_fragment_count == 1
            &&& !packets[0].was_ip_fragmented
        },
{
    let udp = udp_written(ports, checksum, data);
    let chain = chain_written(extensions, 17);
    let head = ipv6_header_written(
        header,
        first_kind(extensions, 17),
        chain.len() + udp.len() as int,
    );
    let link = link_written(addresses, tags, 0x86dd);
    law_packet_begins_behind_its_link_header(
        addresses,
        tags,
        0x86dd,
        head + chain + (udp + padding),
    );
    assert(frame.data@ =~= link + (head + chain + (udp + padding)));
    assert(parsed_ipv4(
        frame.data@,
        frame.original_len,
        frame.direction,
        frame.socket_timestamp,
    ) is Err);
    law_ipv6_datagram_reads_back(
        addresses,
        tags,
        header,
        extensions,
        ports,
        checksum,
        data,
        padding,
        frame.original_len,
        frame.direction,
        frame.socket_timestamp,
    );
    if with_ipv6 {
        let packet = parsed_ipv6(
            frame.data@,
            frame.original_len,
            frame.direction,
            frame.socket_timestamp,
        )->Ok_0;
        assert(frame_packet(frame, with_ipv6) == Some(packet));
        let whole = delivered(state, packet);
        assert(udp =~= udp_header_written(ports, checksum, data.len() as int) + data);
        law_udp_data_reads_back(ports, checksum, data.len() as int, data, whole[0]);
        assert(data.take(data.len() as int) =~= data);
        reveal_with_fuel(datagram_packets, 2);
        assert(whole.drop_last() =~= seq![]);
    }
}

/// Frames are taken in one by one, in order: what a run of them makes whole is what its parts
/// do, each from where the last has left off.
pub proof fn law_frames_taken_in_order(
    state: ReassemblerView,
    first: Seq<PacketFrame<'_>>,
    second: Seq<PacketFrame<'_>>,
    with_ipv6: bool,
)
    ensures
        frames_state(state, first + second, with_ipv6) == frames_state(
            frames_state(state, first, with_ipv6),
            second,
            with_ipv6,
        ),
        frames_packets(state, first + second, with_ipv6) == frames_packets(state, first, with_ipv6)
            + frames_packets(frames_state(state, first, with_ipv6), second, with_ipv6),
    decreases second.len(),
{
    if second.len() == 0 {
        assert(first + second =~= first);
        assert(frames_packets(state, first, with_ipv6) + frames_packets(
            frames_state(state, first, with_ipv6),
            second,
            with_ipv6,
        ) =~= frames_packets(state, first, with_ipv6));
    } else {
        let before = second.drop_last();
        let all = first + second;
        law_frames_taken_in_order(state, first, before, with_ipv6);
        assert(all.drop_last() =~= first + before);
        assert(all.last() == second.last());
        let middle = frames_state(state, first, with_ipv6);
        let last = frame_packets(frames_state(middle, before, with_ipv6), second.last(), with_ipv6);
        lemma_three_parts(
            frames_packets(state, first, with_ipv6),
            frames_packets(middle, before, with_ipv6),
            last,
        );
    }
}

proof fn lemma_three_parts<T>(a: Seq<T>, b: Seq<T>, c: Seq<T>)
    ensures
        a + b + c == a + (b + c),
{
    assert(a + b + c =~= a + (b + c));
}

/// One frame is a run of one.
pub proof fn law_one_frame_taken_in(
    state: ReassemblerView,
    frame: PacketFrame<'_>,
    with_ipv6: bool,
)
    ensures
        frames_state(state, seq![frame], with_ipv6) == frame_state(state, frame, with_ipv6),
        frames_packets(state, seq![frame], with_ipv6) == frame_packets(state, frame, with_ipv6),
{
    reveal_with_fuel(frames_state, 2);
    reveal_with_fuel(frames_packets, 2);
    let one = seq![frame];
    assert(one.drop_last() =~= seq![]);
    let none: Seq<crate::capture::capture::UdpPacketView> = seq![];
    let told = frame_packets(state, frame, with_ipv6);
    assert(none + told =~= told);
}

/// A queue that is to hold nothing keeps what it is given all the same.
pub proof fn law_queue_without_depth<T>(queue: Seq<T>, item: T)
    ensures
        pushed(queue, item, 0) == queue.push(item),
{
}

/// The packets of datagrams are those of the parts of the list, in order.
pub proof fn law_packets_in_order(
    first: Seq<crate::capture::reassembly::IpDatagramView>,
    second: Seq<crate::capture::reassembly::IpDatagramView>,
)
    ensures
        datagram_packets(first + second) == datagram_packets(first) + datagram_packets(second),
    decreases second.len(),
{
    if second.len() == 0 {
        assert(first + second =~= first);
        assert(datagram_packets(first) + datagram_packets(second) =~= datagram_packets(first));
    } else {
        law_packets_in_order(first, second.drop_last());
        assert((first + second).drop_last() =~= first + second.drop_last());
        assert(datagram_packets(first + second) =~= datagram_packets(first) + datagram_packets(
            second,
        ));
    }
}

} // verus!
