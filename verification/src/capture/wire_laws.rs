//! From frames on the wire to the data that was sent.

use crate::capture::capture::{datagram_packet, frame_packets, frame_state};
use crate::capture::frame_laws::{
    big, ipv4_header_written, is_ipv4_header, is_link, is_v4_address, law_ipv4_packet_reads_back,
    lemma_big, link_written, udp_written, Ipv4Header,
};
use crate::capture::ip_frag::{parsed_ipv4, IpFragmentKey, IpPacketView};
use crate::capture::laws::{accepted_all, delivered_all, describes, is_own, told};
use crate::capture::reassembly::{
    delivered, udp_payload_error, udp_payload_of, IpDatagramView, ReassemblerView, UdpPayloadError,
};
use crate::capture::run_laws::{
    are_pieces, delivered_for, is_cut, is_piece, law_pieces_give_back_datagram, never_evicted,
    own_fragments, piece_end,
};
use crate::capture::socket::{PacketDirection, PacketFrame};
use crate::common::{IpAddr, Timestamp};
use vstd::prelude::*;

verus! {

// UDP.

/// The header of a UDP datagram with so many bytes of data.
pub open spec fn udp_header_written(
    ports: (int, int),
    checksum: Seq<u8>,
    data_len: int,
) -> Seq<u8> {
    big(ports.0) + big(ports.1) + big(8 + data_len) + checksum
}

/// The data of a UDP datagram is read out of it, as far as it is there. What follows it does
/// not count. All else that is known of the datagram is told.
pub proof fn law_udp_data_reads_back(
    ports: (int, int),
    checksum: Seq<u8>,
    data_len: int,
    captured: Seq<u8>,
    datagram: IpDatagramView,
)
    requires
        checksum.len() == 2,
        0 <= data_len,
        8 + data_len < 65536,
        datagram.ip_payload == udp_header_written(ports, checksum, data_len) + captured,
    ensures
        ({
            let data = captured.take(
                if captured.len() <= data_len {
                    captured.len() as int
                } else {
                    data_len
                },
            );
            &&& udp_payload_error(datagram.ip_payload) is None
            &&& udp_payload_of(datagram.ip_payload) == data
            &&& datagram_packet(datagram) matches Some(packet)
            &&& packet.payload == data
            &&& packet.socket_timestamp == datagram.socket_timestamp
            &&& packet.frame_len == datagram.frame_len
            &&& packet.direction == datagram.direction
            &&& packet.flow == datagram.flow
            &&& packet.ip_identification == datagram.ip_identification
            &&& packet.ip_fragment_count == datagram.fragment_count
            &&& packet.was_ip_fragmented == datagram.was_fragmented
        }),
{
    let head = udp_header_written(ports, checksum, data_len);
    let bytes = datagram.ip_payload;
    lemma_big(8 + data_len);
    assert(head.len() == 8);
    assert(bytes[4] == big(8 + data_len)[0] && bytes[5] == big(8 + data_len)[1]);
    let end = if captured.len() <= data_len {
        captured.len() as int
    } else {
        data_len
    };
    assert(bytes.subrange(8, 8 + end) =~= captured.take(end));
}

/// A datagram that has no room for a UDP header, or says so, has no data.
pub proof fn law_broken_udp_is_refused(datagram: IpDatagramView)
    ensures
        datagram.ip_payload.len() < 8 ==> udp_payload_error(datagram.ip_payload) == Some(
            UdpPayloadError::ShortPayload,
        ),
        datagram.ip_payload.len() >= 8 && datagram.ip_payload[4] == 0 && datagram.ip_payload[5] < 8
            ==> udp_payload_error(datagram.ip_payload) == Some(UdpPayloadError::UdpLength),
        udp_payload_error(datagram.ip_payload) is Some <==> datagram.ip_payload.len() < 8 || (
        datagram.ip_payload[4] == 0 && datagram.ip_payload[5] < 8),
        udp_payload_error(datagram.ip_payload) is Some <==> datagram_packet(datagram) is None,
{
}

// Datagrams that are sent in one piece.

/// A UDP datagram that is sent in one IPv4 packet comes out of its frame as a packet with its
/// data, and datagrams in the making are left alone.
pub proof fn law_frame_gives_its_data(
    state: ReassemblerView,
    frame: PacketFrame<'_>,
    with_ipv6: bool,
    addresses: Seq<u8>,
    tags: Seq<(int, int)>,
    header: Ipv4Header,
    ports: (int, int),
    checksum: Seq<u8>,
    data: Seq<u8>,
    padding: Seq<u8>,
)
    requires
        is_link(addresses, tags),
        is_ipv4_header(header),
        header.flags % 2 == 0,
        header.units == 0,
        checksum.len() == 2,
        20 + header.options.len() + 8 + data.len() < 65536,
        frame.data@ == link_written(addresses, tags, 0x0800) + ipv4_header_written(
            header,
            17,
            (8 + data.len()) as int,
        ) + (udp_written(ports, checksum, data) + padding),
    ensures
        frame_state(state, frame, with_ipv6) == state,
        ({
            let packets = frame_packets(state, frame, with_ipv6);
            &&& packets.len() == 1
            &&& packets[0].payload == data
            &&& is_v4_address(packets[0].flow.src_ip, header.source)
            &&& is_v4_address(packets[0].flow.dst_ip, header.destination)
            &&& packets[0].ip_identification == header.identification
            &&& packets[0].socket_timestamp == frame.socket_timestamp
            &&& packets[0].frame_len == frame.original_len
            &&& packets[0].direction == frame.direction
            &&& packets[0].ip_fragment_count == 1
            &&& !packets[0].was_ip_fragmented
        }),
{
    let udp = udp_written(ports, checksum, data);
    law_ipv4_packet_reads_back(
        addresses,
        tags,
        header,
        (8 + data.len()) as int,
        udp + padding,
        frame.original_len,
        frame.direction,
        frame.socket_timestamp,
    );
    let packet = parsed_ipv4(
        frame.data@,
        frame.original_len,
        frame.direction,
        frame.socket_timestamp,
    )->Ok_0;
    assert((udp + padding).take(udp.len() as int) =~= udp);
    assert(packet.ip_payload == udp);
    let whole = delivered(state, packet);
    assert(udp =~= udp_header_written(ports, checksum, data.len() as int) + data);
    law_udp_data_reads_back(ports, checksum, data.len() as int, data, whole[0]);
    assert(data.take(data.len() as int) =~= data);
    reveal_with_fuel(crate::capture::capture::datagram_packets, 2);
    assert(whole.drop_last() =~= seq![]);
}

// Datagrams that are sent in pieces.

/// A frame with a piece of a datagram.
pub struct PieceFrame {
    pub addresses: Seq<u8>,
    pub tags: Seq<(int, int)>,
    pub header: Ipv4Header,
    pub padding: Seq<u8>,
    pub frame_len: usize,
    pub direction: PacketDirection,
    pub socket_timestamp: Timestamp,
}

/// The bytes of a frame with a piece of a datagram.
pub open spec fn frame_written(frame: PieceFrame, piece: Seq<u8>) -> Seq<u8> {
    link_written(frame.addresses, frame.tags, 0x0800) + ipv4_header_written(
        frame.header,
        17,
        piece.len() as int,
    ) + (piece + frame.padding)
}

/// The piece of a datagram that begins with the given start.
pub open spec fn piece_of(payload: Seq<u8>, starts: Seq<usize>, i: int) -> Seq<u8> {
    payload.subrange(starts[i] as int, piece_end(starts, payload, i))
}

/// `frame` is for piece `i` of a datagram that goes from `source` to `destination`. It says
/// where the piece belongs in units of eight bytes, and whether another follows.
pub open spec fn carries_piece(
    frame: PieceFrame,
    source: Seq<u8>,
    destination: Seq<u8>,
    identification: u16,
    payload: Seq<u8>,
    starts: Seq<usize>,
    i: int,
) -> bool {
    &&& 0 <= i < starts.len()
    &&& is_link(frame.addresses, frame.tags)
    &&& is_ipv4_header(frame.header)
    &&& frame.header.source == source
    &&& frame.header.destination == destination
    &&& frame.header.identification == identification
    &&& frame.header.units * 8 == starts[i]
    &&& frame.header.flags % 2 == if i + 1 < starts.len() {
        1int
    } else {
        0int
    }
    &&& 20 + frame.header.options.len() + piece_of(payload, starts, i).len() < 65536
}

/// The packets that are read out of frames with pieces of a datagram, frame `j` with piece
/// `which[j]`.
pub open spec fn read_frames(
    frames: Seq<PieceFrame>,
    payload: Seq<u8>,
    starts: Seq<usize>,
    which: Seq<int>,
) -> Seq<IpPacketView> {
    Seq::new(
        frames.len(),
        |j: int|
            parsed_ipv4(
                frame_written(frames[j], piece_of(payload, starts, which[j])),
                frames[j].frame_len,
                frames[j].direction,
                frames[j].socket_timestamp,
            )->Ok_0,
    )
}

proof fn lemma_same_v4(a: IpAddr, b: IpAddr, bytes: Seq<u8>)
    requires
        is_v4_address(a, bytes),
        is_v4_address(b, bytes),
    ensures
        a == b,
{
    assert(a.bytes =~= b.bytes) by {
        assert forall|i: int| 0 <= i < 16 implies a.bytes[i] == b.bytes[i] by {}
    }
}

/// A run of packets of one datagram only is that datagram's own, and nothing makes it go.
proof fn lemma_only_own(state: ReassemblerView, packets: Seq<IpPacketView>, key: IpFragmentKey)
    requires
        forall|j: int| 0 <= j < packets.len() ==> is_own(#[trigger] packets[j], key),
    ensures
        own_fragments(packets, key) == packets,
        never_evicted(state, packets, key),
        delivered_for(state, packets, key) == delivered_all(state, packets),
    decreases packets.len(),
{
    if packets.len() > 0 {
        let before = packets.drop_last();
        assert forall|j: int| 0 <= j < before.len() implies is_own(#[trigger] before[j], key) by {
            assert(before[j] == packets[j]);
        }
        lemma_only_own(state, before, key);
        assert(is_own(packets[packets.len() - 1], key));
        assert(own_fragments(packets, key) =~= packets);
    } else {
        assert(own_fragments(packets, key) =~= packets);
    }
}

/// A datagram that is cut at multiples of eight bytes and sent in IPv4 frames, in any order
/// and each piece as often as may be, is given back when the piece comes that was still
/// missing, and not before. What is known of it is that of its frames.
pub proof fn law_ipv4_frames_give_back_datagram(
    state: ReassemblerView,
    frames: Seq<PieceFrame>,
    source: Seq<u8>,
    destination: Seq<u8>,
    identification: u16,
    payload: Seq<u8>,
    starts: Seq<usize>,
    which: Seq<int>,
)
    requires
        payload.len() <= usize::MAX,
        is_cut(starts, payload),
        starts.len() > 1,
        frames.len() > 0,
        which.len() == frames.len(),
        forall|j: int|
            0 <= j < frames.len() ==> carries_piece(
                #[trigger] frames[j],
                source,
                destination,
                identification,
                payload,
                starts,
                which[j],
            ),
        forall|i: int| 0 <= i < starts.len() ==> #[trigger] which.contains(i),
        !which.drop_last().contains(which.last()),
        forall|key: IpFragmentKey| #[trigger]
            state.flows.contains_key(key) ==> key.identification != identification,
    ensures
        ({
            let packets = read_frames(frames, payload, starts, which);
            let before = packets.drop_last();
            let made = delivered(accepted_all(state, before), packets.last());
            &&& forall|j: int|
                0 <= j < frames.len() ==> parsed_ipv4(
                    frame_written(#[trigger] frames[j], piece_of(payload, starts, which[j])),
                    frames[j].frame_len,
                    frames[j].direction,
                    frames[j].socket_timestamp,
                ) is Ok
            &&& delivered_all(state, before) == Seq::<IpDatagramView>::empty()
            &&& made.len() == 1
            &&& made[0].ip_payload == payload
            &&& made[0].was_fragmented
            &&& made[0].fragment_count == told(starts.len())
            &&& is_v4_address(made[0].flow.src_ip, source)
            &&& is_v4_address(made[0].flow.dst_ip, destination)
            &&& made[0].ip_identification == identification
            &&& describes(made[0], packets)
        }),
{
    let packets = read_frames(frames, payload, starts, which);
    assert forall|j: int| 0 <= j < frames.len() implies parsed_ipv4(
        frame_written(#[trigger] frames[j], piece_of(payload, starts, which[j])),
        frames[j].frame_len,
        frames[j].direction,
        frames[j].socket_timestamp,
    ) is Ok && packets[j].fragment is Some && is_v4_address(packets[j].flow.src_ip, source)
        && is_v4_address(packets[j].flow.dst_ip, destination) && packets[j].ip_identification
        == identification && is_piece(
        packets[j],
        packets[j].fragment->0.key,
        payload,
        starts,
        which[j],
    ) && packets[j].fragment->0.key.identification == identification
        && packets[j].fragment->0.key.protocol == 17 && packets[j].fragment->0.key.src_ip
        == packets[j].flow.src_ip && packets[j].fragment->0.key.dst_ip
        == packets[j].flow.dst_ip by {
        lemma_piece_reads_back(frames[j], source, destination, identification, payload, starts, which[j]);
    }
    assert(carries_piece(
        frames[0],
        source,
        destination,
        identification,
        payload,
        starts,
        which[0],
    ));
    let key = packets[0].fragment->0.key;
    assert(is_v4_address(packets[0].flow.src_ip, source));
    assert forall|j: int| 0 <= j < packets.len() implies is_own(#[trigger] packets[j], key)
        && is_piece(packets[j], key, payload, starts, which[j]) by {
        assert(is_v4_address(packets[j].flow.src_ip, source)) by {
            assert(carries_piece(
                frames[j],
                source,
                destination,
                identification,
                payload,
                starts,
                which[j],
            ));
        }
        lemma_same_v4(packets[0].flow.src_ip, packets[j].flow.src_ip, source);
        lemma_same_v4(packets[0].flow.dst_ip, packets[j].flow.dst_ip, destination);
        assert(packets[j].fragment->0.key == key);
    }
    lemma_only_own(state, packets, key);
    let before = packets.drop_last();
    assert forall|j: int| 0 <= j < before.len() implies is_own(#[trigger] before[j], key) by {
        assert(before[j] == packets[j]);
    }
    lemma_only_own(state, before, key);
    assert(is_own(packets[packets.len() - 1], key));
    assert(are_pieces(packets, key, payload, starts, which));
    law_pieces_give_back_datagram(state, packets, key, payload, starts, which);
}

proof fn lemma_piece_reads_back(
    frame: PieceFrame,
    source: Seq<u8>,
    destination: Seq<u8>,
    identification: u16,
    payload: Seq<u8>,
    starts: Seq<usize>,
    i: int,
)
    requires
        is_cut(starts, payload),
        starts.len() > 1,
        carries_piece(frame, source, destination, identification, payload, starts, i),
    ensures
        ({
            let r = parsed_ipv4(
                frame_written(frame, piece_of(payload, starts, i)),
                frame.frame_len,
                frame.direction,
                frame.socket_timestamp,
            );
            &&& r matches Ok(packet)
            &&& is_v4_address(packet.flow.src_ip, source)
            &&& is_v4_address(packet.flow.dst_ip, destination)
            &&& packet.ip_identification == identification
            &&& packet.fragment matches Some(fragment)
            &&& fragment.key.identification == identification
            &&& fragment.key.protocol == 17
            &&& fragment.key.src_ip == packet.flow.src_ip
            &&& fragment.key.dst_ip == packet.flow.dst_ip
            &&& is_piece(packet, fragment.key, payload, starts, i)
        }),
{
    let piece = piece_of(payload, starts, i);
    law_ipv4_packet_reads_back(
        frame.addresses,
        frame.tags,
        frame.header,
        piece.len() as int,
        piece + frame.padding,
        frame.frame_len,
        frame.direction,
        frame.socket_timestamp,
    );
    assert((piece + frame.padding).take(piece.len() as int) =~= piece);
    if i + 1 == starts.len() {
        assert(starts[0] < starts[i]);
    }
}

} // verus!
