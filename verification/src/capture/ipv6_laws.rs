//! What IPv6 frames carry.

use crate::capture::frame_laws::{
    big, big4, is_link, lemma_big, lemma_link, link_written, udp_written,
};
use crate::capture::ip_frag::{
    ipv6_extent, ipv6_fragment, ipv6_l3_offset, parsed_ipv6, udp_end, v6_at, walk_headers,
    HeaderWalk, IpPacketView, IpParseError,
};
use crate::capture::socket::PacketDirection;
use crate::common::{IpAddr, Timestamp};
use crate::wire::be16;
use vstd::arithmetic::div_mod::lemma_fundamental_div_mod_converse;
use vstd::prelude::*;

verus! {

/// What stands in the header of an IPv6 packet, but for its length and what follows it.
pub struct Ipv6Header {
    pub class: int,
    pub label: Seq<u8>,
    pub hop_limit: u8,
    pub source: Seq<u8>,
    pub destination: Seq<u8>,
}

/// A header as it may stand on the wire.
pub open spec fn is_ipv6_header(header: Ipv6Header) -> bool {
    &&& 0 <= header.class < 16
    &&& header.label.len() == 3
    &&& header.source.len() == 16
    &&& header.destination.len() == 16
}

/// An IPv6 header before something of the kind `next`, of so many bytes.
pub open spec fn ipv6_header_written(header: Ipv6Header, next: u8, payload_len: int) -> Seq<u8> {
    seq![(0x60 + header.class) as u8] + header.label + big(payload_len) + seq![
        next,
        header.hop_limit,
    ] + header.source + header.destination
}

/// An extension header, without its first two bytes.
pub struct Extension {
    pub kind: u8,
    pub body: Seq<u8>,
}

/// An extension header as it may stand on the wire: for the hop by hop options, for routing
/// and for the options of the destination in units of eight bytes, for authentication in
/// units of four.
pub open spec fn is_extension(extension: Extension) -> bool {
    let len = extension.body.len() + 2;
    ||| (extension.kind == 0 || extension.kind == 43 || extension.kind == 60) && len % 8 == 0 && len
        <= 2048
    ||| extension.kind == 51 && len % 4 == 0 && 8 <= len <= 1028
}

/// An extension header before something of the kind `next`.
pub open spec fn extension_written(extension: Extension, next: u8) -> Seq<u8> {
    let len = extension.body.len() + 2;
    seq![
        next,
        if extension.kind == 51 {
            (len / 4 - 2) as u8
        } else {
            (len / 8 - 1) as u8
        },
    ] + extension.body
}

/// The kind of the first of some headers, behind which comes `last`.
pub open spec fn first_kind(extensions: Seq<Extension>, last: u8) -> u8 {
    if extensions.len() == 0 {
        last
    } else {
        extensions[0].kind
    }
}

/// Extension headers, one behind the other, before something of the kind `last`.
pub open spec fn chain_written(extensions: Seq<Extension>, last: u8) -> Seq<u8>
    decreases extensions.len(),
{
    if extensions.len() == 0 {
        seq![]
    } else {
        extension_written(extensions[0], first_kind(extensions.skip(1), last)) + chain_written(
            extensions.skip(1),
            last,
        )
    }
}

/// All of them are extension headers.
pub open spec fn are_extensions(extensions: Seq<Extension>) -> bool {
    forall|i: int| 0 <= i < extensions.len() ==> is_extension(#[trigger] extensions[i])
}

/// However many extension headers there are, the walk comes to what is behind them.
proof fn lemma_walk(packet: Seq<u8>, extensions: Seq<Extension>, last: u8, at: int)
    requires
        are_extensions(extensions),
        0 <= at,
        at + chain_written(extensions, last).len() <= packet.len(),
        packet.subrange(at, at + chain_written(extensions, last).len()) == chain_written(
            extensions,
            last,
        ),
    ensures
        walk_headers(packet, first_kind(extensions, last), at) == walk_headers(
            packet,
            last,
            at + chain_written(extensions, last).len(),
        ),
    decreases extensions.len(),
{
    if extensions.len() > 0 {
        let extension = extensions[0];
        let rest = extensions.skip(1);
        let chain = chain_written(extensions, last);
        let head = extension_written(extension, first_kind(rest, last));
        let tail = chain_written(rest, last);
        let len = (extension.body.len() + 2) as int;
        assert(is_extension(extension));
        assert(head.len() == len);
        assert(chain =~= head + tail);
        let part = packet.subrange(at, at + chain.len());
        assert(part[0] == packet[at] && part[1] == packet[at + 1]);
        assert(packet[at] == head[0] && packet[at + 1] == head[1]);
        assert(packet.subrange(at + len, at + len + tail.len()) =~= tail) by {
            assert forall|i: int| 0 <= i < tail.len() implies packet[at + len + i] == tail[i] by {
                assert(part[len + i] == packet[at + len + i]);
                assert(chain[len + i] == tail[i]);
            }
        }
        assert forall|i: int| 0 <= i < rest.len() implies is_extension(#[trigger] rest[i]) by {
            assert(rest[i] == extensions[i + 1]);
        }
        lemma_walk(packet, rest, last, at + len);
        if extension.kind == 51 {
            assert((packet[at + 1] + 2) * 4 == len);
        } else {
            assert((packet[at + 1] + 1) * 8 == len);
        }
    }
}

/// An address is the IPv6 address with the given bytes.
pub open spec fn is_v6_address(address: IpAddr, bytes: Seq<u8>) -> bool {
    &&& address.family == 6
    &&& forall|i: int| 0 <= i < 16 ==> #[trigger] address.bytes[i] == bytes[i]
}

/// `packet` comes from the source of a header and goes to its destination.
pub open spec fn tells_ipv6(packet: IpPacketView, header: Ipv6Header) -> bool {
    &&& is_v6_address(packet.flow.src_ip, header.source)
    &&& is_v6_address(packet.flow.dst_ip, header.destination)
    &&& packet.flow.src_port == 0
    &&& packet.flow.dst_port == 0
}

proof fn lemma_sixteen(packet: Seq<u8>, at: int, bytes: Seq<u8>)
    requires
        bytes.len() == 16,
        0 <= at,
        at + 16 <= packet.len(),
        packet.subrange(at, at + 16) == bytes,
    ensures
        is_v6_address(v6_at(packet, at), bytes),
{
    let address = v6_at(packet, at);
    assert forall|i: int| 0 <= i < 16 implies #[trigger] address.bytes[i] == bytes[i] by {
        assert(packet.subrange(at, at + 16)[i] == packet[at + i]);
        assert(address.bytes@[i] == packet[at + i]);
    }
}

/// The packet in a frame, with what its header says, up to its payload length or the end of
/// the frame.
proof fn lemma_ipv6_packet(
    addresses: Seq<u8>,
    tags: Seq<(int, int)>,
    header: Ipv6Header,
    extensions: Seq<Extension>,
    last: u8,
    behind_len: int,
    behind: Seq<u8>,
) -> (packet: Seq<u8>)
    requires
        is_link(addresses, tags),
        is_ipv6_header(header),
        are_extensions(extensions),
        0 <= behind_len,
        chain_written(extensions, last).len() + behind_len < 65536,
    ensures
        ({
            let chain = chain_written(extensions, last);
            let frame = link_written(addresses, tags, 0x86dd) + ipv6_header_written(
                header,
                first_kind(extensions, last),
                chain.len() + behind_len,
            ) + chain + behind;
            let start = (14 + 4 * tags.len()) as int;
            let end = if behind.len() <= behind_len {
                behind.len() as int
            } else {
                behind_len
            };
            &&& ipv6_l3_offset(frame) == Ok::<int, IpParseError>(start)
            &&& frame.len() >= start + 40
            &&& packet == ipv6_extent(frame, start)
            &&& packet.len() == 40 + chain.len() + end
            &&& packet[0] / 16 == 6
            &&& packet.skip(40 + chain.len() as int) == behind.take(end)
            &&& walk_headers(packet, packet[6], 40) == walk_headers(
                packet,
                last,
                (40 + chain.len()) as int,
            )
            &&& is_v6_address(v6_at(packet, 8), header.source)
            &&& is_v6_address(v6_at(packet, 24), header.destination)
        }),
{
    let chain = chain_written(extensions, last);
    let payload_len = chain.len() + behind_len;
    let head = ipv6_header_written(header, first_kind(extensions, last), payload_len);
    let link = link_written(addresses, tags, 0x86dd);
    let frame = link + head + chain + behind;
    let bytes = head + chain + behind;
    let start = (14 + 4 * tags.len()) as int;
    let end = if behind.len() <= behind_len {
        behind.len() as int
    } else {
        behind_len
    };
    assert(frame =~= link + bytes);
    lemma_link(addresses, tags, 0x86dd, bytes);
    lemma_big(payload_len);
    assert(head.len() == 40);
    assert(head[4] == big(payload_len)[0] && head[5] == big(payload_len)[1]);
    assert forall|i: int| 0 <= i < bytes.len() implies #[trigger] frame[start + i] == bytes[i] by {}
    assert(frame[start + 4] == head[4] && frame[start + 5] == head[5]);
    let packet = ipv6_extent(frame, start);
    let whole = head + chain + behind.take(end);
    assert(packet =~= whole) by {
        assert forall|i: int| 0 <= i < whole.len() implies packet[i] == whole[i] by {
            assert(packet[i] == frame[start + i]);
        }
    }
    assert(packet[0] == head[0] && packet[6] == head[6]);
    assert(head[0] == (0x60 + header.class) as u8);
    assert(head[6] == first_kind(extensions, last));
    assert(packet.skip(40 + chain.len() as int) =~= behind.take(end));
    assert(packet.subrange(40, (40 + chain.len()) as int) =~= chain);
    lemma_walk(packet, extensions, last, 40);
    assert(packet.subrange(8, 24) =~= header.source);
    assert(packet.subrange(24, 40) =~= header.destination);
    lemma_sixteen(packet, 8, header.source);
    lemma_sixteen(packet, 24, header.destination);
    packet
}

proof fn lemma_udp_at(
    packet: Seq<u8>,
    at: int,
    ports: (int, int),
    checksum: Seq<u8>,
    data: Seq<u8>,
)
    requires
        0 <= at <= packet.len(),
        checksum.len() == 2,
        8 + data.len() < 65536,
        packet.skip(at) == udp_written(ports, checksum, data),
    ensures
        at + 8 <= packet.len(),
        be16(packet[at + 4], packet[at + 5]) == 8 + data.len(),
        packet.subrange(at, udp_end(packet, at)) == udp_written(ports, checksum, data),
{
    let udp = udp_written(ports, checksum, data);
    let len = (8 + data.len()) as int;
    lemma_big(len);
    assert(udp.len() == len);
    assert(udp[4] == big(len)[0] && udp[5] == big(len)[1]);
    assert(packet.skip(at)[4] == packet[at + 4] && packet.skip(at)[5] == packet[at + 5]);
    assert(udp_end(packet, at) == packet.len());
    assert(packet.subrange(at, packet.len() as int) =~= packet.skip(at));
}

/// A UDP datagram in an IPv6 packet is read out of its frame, whatever extension headers
/// stand before it and whatever padding behind.
pub proof fn law_ipv6_datagram_reads_back(
    addresses: Seq<u8>,
    tags: Seq<(int, int)>,
    header: Ipv6Header,
    extensions: Seq<Extension>,
    ports: (int, int),
    checksum: Seq<u8>,
    data: Seq<u8>,
    padding: Seq<u8>,
    frame_len: usize,
    direction: PacketDirection,
    socket_timestamp: Timestamp,
)
    requires
        is_link(addresses, tags),
        is_ipv6_header(header),
        are_extensions(extensions),
        checksum.len() == 2,
        chain_written(extensions, 17).len() + 8 + data.len() < 65536,
    ensures
        ({
            let chain = chain_written(extensions, 17);
            let udp = udp_written(ports, checksum, data);
            let frame = link_written(addresses, tags, 0x86dd) + ipv6_header_written(
                header,
                first_kind(extensions, 17),
                chain.len() + udp.len() as int,
            ) + chain + (udp + padding);
            &&& parsed_ipv6(frame, frame_len, direction, socket_timestamp) matches Ok(packet)
            &&& tells_ipv6(packet, header)
            &&& packet.ip_identification == 0
            &&& packet.ip_payload == udp
            &&& packet.fragment is None
            &&& packet.frame_len == frame_len
            &&& packet.direction == direction
            &&& packet.socket_timestamp == socket_timestamp
        }),
{
    let udp = udp_written(ports, checksum, data);
    let at = (40 + chain_written(extensions, 17).len()) as int;
    let packet = lemma_ipv6_packet(
        addresses,
        tags,
        header,
        extensions,
        17,
        udp.len() as int,
        udp + padding,
    );
    assert((udp + padding).take(udp.len() as int) =~= udp);
    lemma_udp_at(packet, at, ports, checksum, data);
    assert(walk_headers(packet, 17, at) == (HeaderWalk::Udp { offset: at }));
}

/// A fragment in an IPv6 packet is read out of its frame, whatever extension headers stand
/// before it: where it belongs is eight times what its header says, and what was captured of
/// it is its payload.
pub proof fn law_ipv6_fragment_reads_back(
    addresses: Seq<u8>,
    tags: Seq<(int, int)>,
    header: Ipv6Header,
    extensions: Seq<Extension>,
    protocol: u8,
    reserved: u8,
    units: int,
    spare: int,
    more: bool,
    identification: u32,
    piece_len: int,
    captured: Seq<u8>,
    frame_len: usize,
    direction: PacketDirection,
    socket_timestamp: Timestamp,
)
    requires
        is_link(addresses, tags),
        is_ipv6_header(header),
        are_extensions(extensions),
        0 <= units < 0x2000,
        0 <= spare < 4,
        0 <= piece_len,
        chain_written(extensions, 44).len() + 8 + piece_len < 65536,
    ensures
        ({
            let chain = chain_written(extensions, 44);
            let head = fragment_header_written(
                protocol,
                reserved,
                units,
                spare,
                more,
                identification,
            );
            let frame = link_written(addresses, tags, 0x86dd) + ipv6_header_written(
                header,
                first_kind(extensions, 44),
                chain.len() + (8 + piece_len),
            ) + chain + (head + captured);
            &&& parsed_ipv6(frame, frame_len, direction, socket_timestamp) matches Ok(packet)
            &&& tells_ipv6(packet, header)
            &&& packet.ip_identification == identification % 65536
            &&& packet.ip_payload == captured.take(
                if captured.len() <= piece_len {
                    captured.len() as int
                } else {
                    piece_len
                },
            )
            &&& packet.fragment matches Some(fragment)
            &&& fragment.offset_bytes == units * 8
            &&& fragment.more_fragments == more
            &&& fragment.key.identification == identification
            &&& fragment.key.protocol == protocol
            &&& fragment.key.src_ip == packet.flow.src_ip
            &&& fragment.key.dst_ip == packet.flow.dst_ip
            &&& packet.frame_len == frame_len
            &&& packet.direction == direction
            &&& packet.socket_timestamp == socket_timestamp
        }),
{
    let head = fragment_header_written(protocol, reserved, units, spare, more, identification);
    assert(head.len() == 8);
    let behind = head + captured;
    let at = (40 + chain_written(extensions, 44).len()) as int;
    let end = if captured.len() <= piece_len {
        captured.len() as int
    } else {
        piece_len
    };
    let packet = lemma_ipv6_packet(
        addresses,
        tags,
        header,
        extensions,
        44,
        8 + piece_len,
        behind,
    );
    lemma_cut_behind_header(head, captured, piece_len);
    lemma_fragment_at(
        packet,
        at,
        protocol,
        reserved,
        units,
        spare,
        more,
        identification,
        captured.take(end),
    );
    assert(walk_headers(packet, 44, at) == (HeaderWalk::Fragment { offset: at }));
    let chain = chain_written(extensions, 44);
    let frame = link_written(addresses, tags, 0x86dd) + ipv6_header_written(
        header,
        first_kind(extensions, 44),
        chain.len() + (8 + piece_len),
    ) + chain + behind;
    lemma_fragment_parsed(
        frame,
        (14 + 4 * tags.len()) as int,
        packet,
        at,
        frame_len,
        direction,
        socket_timestamp,
    );
}

/// What is left of a header and what follows it if only so many bytes behind the header are.
proof fn lemma_cut_behind_header(head: Seq<u8>, captured: Seq<u8>, piece_len: int)
    requires
        head.len() == 8,
        0 <= piece_len,
    ensures
        ({
            let behind = head + captured;
            let end = if captured.len() <= piece_len {
                captured.len() as int
            } else {
                piece_len
            };
            behind.take(
                if behind.len() <= 8 + piece_len {
                    behind.len() as int
                } else {
                    8 + piece_len
                },
            ) == head + captured.take(end)
        }),
{
    let behind = head + captured;
    let end = if captured.len() <= piece_len {
        captured.len() as int
    } else {
        piece_len
    };
    assert(behind.take(8 + end) =~= head + captured.take(end));
}

/// What is told of a fragment whose header stands at a place of its packet.
proof fn lemma_fragment_parsed(
    frame: Seq<u8>,
    start: int,
    packet: Seq<u8>,
    at: int,
    frame_len: usize,
    direction: PacketDirection,
    socket_timestamp: Timestamp,
)
    requires
        ipv6_l3_offset(frame) == Ok::<int, IpParseError>(start),
        frame.len() >= start + 40,
        packet == ipv6_extent(frame, start),
        packet[0] / 16 == 6,
        walk_headers(packet, packet[6], 40) == (HeaderWalk::Fragment { offset: at }),
    ensures
        parsed_ipv6(frame, frame_len, direction, socket_timestamp) matches Ok(view) && {
            &&& view.flow.src_ip == v6_at(packet, 8)
            &&& view.flow.dst_ip == v6_at(packet, 24)
            &&& view.flow.src_port == 0
            &&& view.flow.dst_port == 0
            &&& view.ip_identification == be16(packet[at + 6], packet[at + 7])
            &&& view.ip_payload == packet.skip(at + 8)
            &&& view.fragment == Some(ipv6_fragment(packet, at))
            &&& view.frame_len == frame_len
            &&& view.direction == direction
            &&& view.socket_timestamp == socket_timestamp
        },
{
}

proof fn lemma_fragment_at(
    packet: Seq<u8>,
    at: int,
    protocol: u8,
    reserved: u8,
    units: int,
    spare: int,
    more: bool,
    identification: u32,
    piece: Seq<u8>,
)
    requires
        0 <= at <= packet.len(),
        0 <= units < 0x2000,
        0 <= spare < 4,
        packet.skip(at) == fragment_header_written(
            protocol,
            reserved,
            units,
            spare,
            more,
            identification,
        ) + piece,
    ensures
        at + 8 <= packet.len(),
        packet.skip(at + 8) == piece,
        be16(packet[at + 6], packet[at + 7]) == identification % 65536,
        ipv6_fragment(packet, at).offset_bytes == units * 8,
        ipv6_fragment(packet, at).more_fragments == more,
        ipv6_fragment(packet, at).key.identification == identification,
        ipv6_fragment(packet, at).key.protocol == protocol,
        ipv6_fragment(packet, at).key.src_ip == v6_at(packet, 8),
        ipv6_fragment(packet, at).key.dst_ip == v6_at(packet, 24),
{
    let head = fragment_header_written(protocol, reserved, units, spare, more, identification);
    let rest = packet.skip(at);
    assert(head.len() == 8);
    assert(rest.len() == packet.len() - at);
    assert(rest.len() == 8 + piece.len());
    assert forall|i: int| 0 <= i < rest.len() implies #[trigger] rest[i] == packet[at + i] by {}
    let bits = units * 8 + spare * 2 + if more {
        1int
    } else {
        0int
    };
    lemma_big(bits);
    lemma_big4(identification as int);
    let four = big4(identification as int);
    assert(rest[0] == protocol);
    assert(rest[2] == big(bits)[0] && rest[3] == big(bits)[1]);
    assert(rest[4] == four[0] && rest[5] == four[1] && rest[6] == four[2] && rest[7] == four[3]);
    assert(packet[at] == rest[0] && packet[at + 2] == rest[2] && packet[at + 3] == rest[3]
        && packet[at + 4] == rest[4] && packet[at + 5] == rest[5] && packet[at + 6] == rest[6]
        && packet[at + 7] == rest[7]);
    assert(packet.skip(at + 8) =~= piece) by {
        assert forall|i: int| 0 <= i < piece.len() implies packet[at + 8 + i] == piece[i] by {
            assert(rest[8 + i] == packet[at + 8 + i]);
        }
    }
    assert(bits / 8 == units);
    assert(bits % 2 == if more {
        1int
    } else {
        0int
    });
}

/// A fragment header.
pub open spec fn fragment_header_written(
    protocol: u8,
    reserved: u8,
    units: int,
    spare: int,
    more: bool,
    identification: u32,
) -> Seq<u8> {
    seq![protocol, reserved] + big(
        units * 8 + spare * 2 + if more {
            1int
        } else {
            0int
        },
    ) + big4(identification as int)
}

proof fn lemma_big4(value: int)
    requires
        0 <= value <= u32::MAX,
    ensures
        big4(value)[0] * 16777216 + big4(value)[1] * 65536 + big4(value)[2] * 256 + big4(value)[3]
            == value,
        big4(value)[2] * 256 + big4(value)[3] == value % 65536,
{
    let three = value / 256;
    let two = value / 65536;
    let one = value / 16777216;
    assert(value == three * 256 + value % 256);
    assert(three == two * 256 + three % 256) by {
        lemma_fundamental_div_mod_converse(value, 65536, three / 256, (three % 256) * 256 + value % 256);
    }
    assert(two == one * 256 + two % 256) by {
        lemma_fundamental_div_mod_converse(
            value,
            16777216,
            two / 256,
            (two % 256) * 65536 + (three % 256) * 256 + value % 256,
        );
    }
    lemma_fundamental_div_mod_converse(
        value,
        65536,
        two,
        (three % 256) * 256 + value % 256,
    );
}

/// Nothing is read out of an IPv6 packet whose version is another, that is encrypted, has
/// nothing in it or something that is not UDP.
pub proof fn law_other_ipv6_packets_are_refused(
    addresses: Seq<u8>,
    tags: Seq<(int, int)>,
    header: Ipv6Header,
    extensions: Seq<Extension>,
    last: u8,
    behind: Seq<u8>,
    frame_len: usize,
    direction: PacketDirection,
    socket_timestamp: Timestamp,
)
    requires
        is_link(addresses, tags),
        is_ipv6_header(header),
        are_extensions(extensions),
        chain_written(extensions, last).len() + behind.len() < 65536,
        last != 0 && last != 43 && last != 60 && last != 51 && last != 17 && last != 44,
    ensures
        ({
            let chain = chain_written(extensions, last);
            let frame = link_written(addresses, tags, 0x86dd) + ipv6_header_written(
                header,
                first_kind(extensions, last),
                chain.len() + behind.len() as int,
            ) + chain + behind;
            parsed_ipv6(frame, frame_len, direction, socket_timestamp) == Err::<IpPacketView, _>(
                if last == 50 {
                    IpParseError::Esp
                } else if last == 59 {
                    IpParseError::NoNextHeader
                } else {
                    IpParseError::UnsupportedNextHeader { next_header: last }
                },
            )
        }),
{
    let packet = lemma_ipv6_packet(
        addresses,
        tags,
        header,
        extensions,
        last,
        behind.len() as int,
        behind,
    );
}

} // verus!
