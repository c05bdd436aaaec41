//! What frames carry: whatever is written into a frame is read out of it again.

use crate::capture::ip_frag::{
    ipv4_l3_offset, ipv6_l3_offset, l3_offset, parsed_ipv4, skip_tags, IpPacketView,
    IpParseError,
};
use crate::capture::socket::PacketDirection;
use crate::common::{IpAddr, Timestamp};
use vstd::arithmetic::div_mod::lemma_fundamental_div_mod_converse;
use vstd::prelude::*;

verus! {

/// A number below 65536 in two bytes, most significant first.
pub open spec fn big(value: int) -> Seq<u8> {
    seq![(value / 256) as u8, (value % 256) as u8]
}

/// A number below 4294967296 in four bytes, most significant first.
pub open spec fn big4(value: int) -> Seq<u8> {
    seq![
        (value / 16777216) as u8,
        (value / 65536 % 256) as u8,
        (value / 256 % 256) as u8,
        (value % 256) as u8,
    ]
}

/// A UDP datagram.
pub open spec fn udp_written(ports: (int, int), checksum: Seq<u8>, data: Seq<u8>) -> Seq<u8> {
    big(ports.0) + big(ports.1) + big((8 + data.len()) as int) + checksum + data
}

// Link layer.

/// A kind of VLAN tag.
pub open spec fn is_tag(kind: int) -> bool {
    kind == 0x8100 || kind == 0x88a8 || kind == 0x9100
}

/// VLAN tags, each its kind and its value.
pub open spec fn tags_written(tags: Seq<(int, int)>) -> Seq<u8>
    decreases tags.len(),
{
    if tags.len() == 0 {
        seq![]
    } else {
        big(tags[0].0) + big(tags[0].1) + tags_written(tags.skip(1))
    }
}

/// A link layer header: two hardware addresses, tags, and what kind of packet follows.
pub open spec fn link_written(
    addresses: Seq<u8>,
    tags: Seq<(int, int)>,
    ethertype: int,
) -> Seq<u8> {
    addresses + tags_written(tags) + big(ethertype)
}

/// A link layer header as it may stand on the wire, with at most two tags.
pub open spec fn is_link(addresses: Seq<u8>, tags: Seq<(int, int)>) -> bool {
    &&& addresses.len() == 12
    &&& tags.len() <= 2
    &&& forall|i: int|
        0 <= i < tags.len() ==> is_tag((#[trigger] tags[i]).0) && 0 <= tags[i].1 < 65536
}

pub proof fn lemma_big(value: int)
    requires
        0 <= value < 65536,
    ensures
        big(value).len() == 2,
        big(value)[0] * 256 + big(value)[1] == value,
{
}

pub proof fn lemma_link(
    addresses: Seq<u8>,
    tags: Seq<(int, int)>,
    ethertype: int,
    rest: Seq<u8>,
)
    requires
        is_link(addresses, tags),
        0 <= ethertype < 65536,
        !is_tag(ethertype),
    ensures
        l3_offset(link_written(addresses, tags, ethertype) + rest) == Ok::<
            (u16, int),
            IpParseError,
        >((ethertype as u16, (14 + 4 * tags.len()) as int)),
        link_written(addresses, tags, ethertype).len() == 14 + 4 * tags.len(),
        (link_written(addresses, tags, ethertype) + rest).skip(14 + 4 * tags.len() as int) == rest,
{
    let frame = link_written(addresses, tags, ethertype) + rest;
    lemma_big(ethertype);
    reveal_with_fuel(tags_written, 3);
    reveal_with_fuel(skip_tags, 3);
    if tags.len() == 0 {
        assert(frame[12] == big(ethertype)[0] && frame[13] == big(ethertype)[1]);
    } else if tags.len() == 1 {
        lemma_big(tags[0].0);
        lemma_big(tags[0].1);
        assert(tags_written(tags) =~= big(tags[0].0) + big(tags[0].1));
        assert(frame[12] == big(tags[0].0)[0] && frame[13] == big(tags[0].0)[1]);
        assert(frame[16] == big(ethertype)[0] && frame[17] == big(ethertype)[1]);
    } else {
        lemma_big(tags[0].0);
        lemma_big(tags[0].1);
        lemma_big(tags[1].0);
        lemma_big(tags[1].1);
        assert(tags.skip(1)[0] == tags[1]);
        assert(tags.skip(1).skip(1).len() == 0);
        assert(tags_written(tags) =~= big(tags[0].0) + big(tags[0].1) + big(tags[1].0) + big(
            tags[1].1,
        ));
        assert(frame[12] == big(tags[0].0)[0] && frame[13] == big(tags[0].0)[1]);
        assert(frame[16] == big(tags[1].0)[0] && frame[17] == big(tags[1].0)[1]);
        assert(frame[20] == big(ethertype)[0] && frame[21] == big(ethertype)[1]);
    }
    assert(frame.skip(14 + 4 * tags.len() as int) =~= rest);
}

/// The packet in a frame begins behind the addresses, up to two tags and the kind of packet.
/// A frame of another kind holds no IPv4 packet, and none for IPv6.
pub proof fn law_packet_begins_behind_its_link_header(
    addresses: Seq<u8>,
    tags: Seq<(int, int)>,
    ethertype: int,
    rest: Seq<u8>,
)
    requires
        is_link(addresses, tags),
        0 <= ethertype < 65536,
        !is_tag(ethertype),
    ensures
        ({
            let frame = link_written(addresses, tags, ethertype) + rest;
            let start = (14 + 4 * tags.len()) as int;
            &&& l3_offset(frame) == Ok::<(u16, int), IpParseError>((ethertype as u16, start))
            &&& frame.skip(start) == rest
            &&& ipv4_l3_offset(frame) == if ethertype == 0x0800 {
                Ok::<int, IpParseError>(start)
            } else {
                Err(IpParseError::NotIpv4 { ethertype: ethertype as u16 })
            }
            &&& ipv6_l3_offset(frame) == if ethertype == 0x86dd {
                Ok::<int, IpParseError>(start)
            } else {
                Err(IpParseError::NotIpv6 { ethertype: ethertype as u16 })
            }
        }),
{
    lemma_link(addresses, tags, ethertype, rest);
}

/// A frame that ends within its link layer header holds no packet.
pub proof fn law_cut_link_header_is_refused(frame: Seq<u8>)
    requires
        frame.len() < 14 || (frame.len() < 18 && is_tag(frame[12] * 256 + frame[13])),
    ensures
        ipv4_l3_offset(frame) is Err,
        ipv6_l3_offset(frame) is Err,
        frame.len() < 14 ==> l3_offset(frame) == Err::<(u16, int), IpParseError>(
            IpParseError::ShortEthernet,
        ),
        frame.len() >= 14 ==> l3_offset(frame) == Err::<(u16, int), IpParseError>(
            IpParseError::ShortVlan,
        ),
{
    reveal_with_fuel(skip_tags, 3);
}

// IPv4.

/// What stands in the header of an IPv4 packet, but for its lengths and its protocol.
pub struct Ipv4Header {
    pub service: u8,
    pub identification: u16,
    /// The three flags. The lowest says that more fragments follow.
    pub flags: int,
    /// Where the packet belongs in its datagram, in units of eight bytes.
    pub units: int,
    pub ttl: u8,
    pub checksum: Seq<u8>,
    pub source: Seq<u8>,
    pub destination: Seq<u8>,
    pub options: Seq<u8>,
}

/// A header as it may stand on the wire.
pub open spec fn is_ipv4_header(header: Ipv4Header) -> bool {
    &&& 0 <= header.flags < 8
    &&& 0 <= header.units < 0x2000
    &&& header.checksum.len() == 2
    &&& header.source.len() == 4
    &&& header.destination.len() == 4
    &&& header.options.len() % 4 == 0
    &&& header.options.len() <= 40
}

/// An IPv4 header for a packet with a protocol and so many bytes of payload.
pub open spec fn ipv4_header_written(header: Ipv4Header, protocol: u8, payload_len: int) -> Seq<u8> {
    seq![(0x45 + header.options.len() / 4) as u8, header.service] + big(
        20 + header.options.len() + payload_len,
    ) + big(header.identification as int) + big(header.flags * 0x2000 + header.units) + seq![
        header.ttl,
        protocol,
    ] + header.checksum + header.source + header.destination + header.options
}

/// An address is the IPv4 address with the given bytes.
pub open spec fn is_v4_address(address: IpAddr, bytes: Seq<u8>) -> bool {
    &&& address.family == 4
    &&& forall|i: int| 0 <= i < 4 ==> #[trigger] address.bytes[i] == bytes[i]
    &&& forall|i: int| 4 <= i < 16 ==> #[trigger] address.bytes[i] == 0
}

/// `packet` tells what a header says.
pub open spec fn tells_ipv4(packet: IpPacketView, header: Ipv4Header) -> bool {
    &&& is_v4_address(packet.flow.src_ip, header.source)
    &&& is_v4_address(packet.flow.dst_ip, header.destination)
    &&& packet.flow.src_port == 0
    &&& packet.flow.dst_port == 0
    &&& packet.ip_identification == header.identification
    &&& packet.fragment is None <==> header.flags % 2 == 0 && header.units == 0
    &&& packet.fragment matches Some(fragment) ==> {
        &&& fragment.offset_bytes == header.units * 8
        &&& fragment.more_fragments == (header.flags % 2 == 1)
        &&& fragment.key.src_ip == packet.flow.src_ip
        &&& fragment.key.dst_ip == packet.flow.dst_ip
        &&& fragment.key.identification == header.identification
        &&& fragment.key.protocol == 17
    }
}

proof fn lemma_ipv4_header(header: Ipv4Header, protocol: u8, payload_len: int)
    requires
        is_ipv4_header(header),
        0 <= payload_len,
        20 + header.options.len() + payload_len < 65536,
    ensures
        ({
            let bytes = ipv4_header_written(header, protocol, payload_len);
            &&& bytes.len() == 20 + header.options.len()
            &&& bytes[0] / 16 == 4
            &&& (bytes[0] % 16) * 4 == bytes.len()
            &&& bytes[2] * 256 + bytes[3] == 20 + header.options.len() + payload_len
            &&& bytes[4] * 256 + bytes[5] == header.identification
            &&& bytes[6] * 256 + bytes[7] == header.flags * 0x2000 + header.units
            &&& bytes[9] == protocol
            &&& bytes.subrange(12, 16) == header.source
            &&& bytes.subrange(16, 20) == header.destination
        }),
{
    let bytes = ipv4_header_written(header, protocol, payload_len);
    let total = 20 + header.options.len() + payload_len;
    lemma_big(total);
    lemma_big(header.identification as int);
    lemma_big(header.flags * 0x2000 + header.units);
    assert(bytes[0] == 0x45 + header.options.len() / 4);
    assert(bytes[2] == big(total)[0] && bytes[3] == big(total)[1]);
    assert(bytes[4] == big(header.identification as int)[0] && bytes[5] == big(
        header.identification as int,
    )[1]);
    assert(bytes[6] == big(header.flags * 0x2000 + header.units)[0] && bytes[7] == big(
        header.flags * 0x2000 + header.units,
    )[1]);
    assert(bytes.subrange(12, 16) =~= header.source);
    assert(bytes.subrange(16, 20) =~= header.destination);
}

proof fn lemma_v4_bytes(a: u8, b: u8, c: u8, d: u8)
    ensures
        crate::wire::be32(a, b, c, d) / 0x100_0000 == a,
        crate::wire::be32(a, b, c, d) / 0x1_0000 % 256 == b,
        crate::wire::be32(a, b, c, d) / 0x100 % 256 == c,
        crate::wire::be32(a, b, c, d) % 256 == d,
{
    let value = crate::wire::be32(a, b, c, d) as int;
    let three = a * 65536 + b * 256 + c;
    let two = a * 256 + b;
    assert(value == three * 256 + d);
    assert(value == two * 65536 + (c * 256 + d));
    assert(value == a * 16777216 + (b * 65536 + c * 256 + d));
    lemma_fundamental_div_mod_converse(value, 256, three, d as int);
    lemma_fundamental_div_mod_converse(value, 65536, two, c * 256 + d);
    lemma_fundamental_div_mod_converse(value, 16777216, a as int, b * 65536 + c * 256 + d);
    lemma_fundamental_div_mod_converse(three, 256, two, c as int);
    lemma_fundamental_div_mod_converse(two, 256, a as int, b as int);
}

/// An IPv4 packet with UDP in it is read out of its frame with all that its header says. Its
/// payload is what was captured of it: padding behind the packet does not count, and a frame
/// that was cut short has the beginning. Where the packet belongs in its datagram is eight
/// times what its header says.
pub proof fn law_ipv4_packet_reads_back(
    addresses: Seq<u8>,
    tags: Seq<(int, int)>,
    header: Ipv4Header,
    payload_len: int,
    captured: Seq<u8>,
    frame_len: usize,
    direction: PacketDirection,
    socket_timestamp: Timestamp,
)
    requires
        is_link(addresses, tags),
        is_ipv4_header(header),
        0 <= payload_len,
        20 + header.options.len() + payload_len < 65536,
    ensures
        ({
            let frame = link_written(addresses, tags, 0x0800) + ipv4_header_written(
                header,
                17,
                payload_len,
            ) + captured;
            &&& parsed_ipv4(frame, frame_len, direction, socket_timestamp) matches Ok(packet)
            &&& tells_ipv4(packet, header)
            &&& packet.ip_payload == captured.take(
                if captured.len() <= payload_len {
                    captured.len() as int
                } else {
                    payload_len
                },
            )
            &&& packet.frame_len == frame_len
            &&& packet.direction == direction
            &&& packet.socket_timestamp == socket_timestamp
        }),
{
    let link = link_written(addresses, tags, 0x0800);
    let head = ipv4_header_written(header, 17, payload_len);
    let frame = link + head + captured;
    let bytes = head + captured;
    assert(frame =~= link + bytes);
    lemma_link(addresses, tags, 0x0800, bytes);
    lemma_ipv4_header(header, 17, payload_len);
    assert forall|i: int| 0 <= i < head.len() implies #[trigger] bytes[i] == head[i] by {}
    assert forall|i: int| 0 <= i < 4 implies #[trigger] header.source[i] == bytes[12 + i] by {
        assert(head.subrange(12, 16)[i] == head[12 + i]);
    }
    assert forall|i: int| 0 <= i < 4 implies #[trigger] header.destination[i] == bytes[16 + i] by {
        assert(head.subrange(16, 20)[i] == head[16 + i]);
    }
    lemma_v4_bytes(bytes[12], bytes[13], bytes[14], bytes[15]);
    lemma_v4_bytes(bytes[16], bytes[17], bytes[18], bytes[19]);
    let end = if captured.len() <= payload_len {
        captured.len() as int
    } else {
        payload_len
    };
    assert(bytes.subrange(head.len() as int, head.len() + end) =~= captured.take(end));
    let packet = parsed_ipv4(frame, frame_len, direction, socket_timestamp)->Ok_0;
    assert(packet.ip_payload == captured.take(end));
    let bits = header.flags * 0x2000 + header.units;
    assert(bits / 0x2000 == header.flags);
    assert(bits % 0x2000 == header.units);
}

/// Only UDP is read out of IPv4 packets, and only whole headers of that version.
pub proof fn law_other_ipv4_packets_are_refused(
    addresses: Seq<u8>,
    tags: Seq<(int, int)>,
    bytes: Seq<u8>,
    frame_len: usize,
    direction: PacketDirection,
    socket_timestamp: Timestamp,
)
    requires
        is_link(addresses, tags),
    ensures
        ({
            let frame = link_written(addresses, tags, 0x0800) + bytes;
            let r = parsed_ipv4(frame, frame_len, direction, socket_timestamp);
            &&& r is Ok <==> {
                &&& bytes.len() >= 20
                &&& 0x45 <= bytes[0] < 0x50
                &&& bytes.len() >= (bytes[0] - 0x40) * 4
                &&& bytes[9] == 17
                &&& bytes[2] * 256 + bytes[3] >= (bytes[0] - 0x40) * 4
            }
            &&& bytes.len() < 20 ==> r == Err::<IpPacketView, _>(IpParseError::ShortIpv4)
            &&& bytes.len() >= 20 && 0x45 <= bytes[0] < 0x50 && bytes.len() >= (bytes[0] - 0x40) * 4
                && bytes[9] != 17 ==> r == Err::<IpPacketView, _>(IpParseError::Ipv4NotUdp)
        }),
{
    lemma_link(addresses, tags, 0x0800, bytes);
}

} // verus!
