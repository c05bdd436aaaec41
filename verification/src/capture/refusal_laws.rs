//! Which packets are cut short, and what is told of those that are read.

use crate::capture::ip_frag::{
    ipv6_extent, ipv6_l3_offset, is_parsed, parsed_ipv6, udp_end, walk_headers, CapturedIpPacket,
    HeaderWalk, IpPacketView, IpParseError,
};
use crate::capture::reassembly::{is_udp_payload_of, IpDatagramView, ReassembledUdpPayload};
use crate::capture::socket::PacketDirection;
use crate::common::Timestamp;
use crate::payload::payload_bytes;
use vstd::prelude::*;

verus! {

/// The walk over headers ends in an error.
pub open spec fn fails(walk: HeaderWalk, error: IpParseError) -> bool {
    walk matches HeaderWalk::Failed { error: told } && told == error
}

/// A header that does not begin within the packet, or does not end within it, is refused.
pub proof fn law_cut_headers_refused(packet: Seq<u8>, kind: u8, offset: int)
    requires
        0 <= offset <= packet.len(),
    ensures
        ({
            let left = packet.len() - offset;
            let walk = walk_headers(packet, kind, offset);
            let options = kind == 0 || kind == 43 || kind == 60;
            &&& options && left < 2 ==> fails(walk, IpParseError::ShortExtension)
            &&& options && 2 <= left < 8 * packet[offset + 1] + 8 ==> fails(
                walk,
                IpParseError::ExtensionsExceedPayload,
            )
            &&& kind == 51 && left < 2 ==> fails(walk, IpParseError::ShortAuthentication)
            &&& kind == 51 && 2 <= left < 4 * packet[offset + 1] + 8 ==> fails(
                walk,
                IpParseError::ExtensionsExceedPayload,
            )
            &&& kind == 44 && left < 8 ==> fails(walk, IpParseError::ShortFragment)
        }),
{
}

/// An IPv6 packet that has no room for its header, or names another version, is refused.
pub proof fn law_cut_ipv6_refused(
    frame: Seq<u8>,
    start: int,
    frame_len: usize,
    direction: PacketDirection,
    socket_timestamp: Timestamp,
)
    requires
        ipv6_l3_offset(frame) == Ok::<int, IpParseError>(start),
        0 <= start <= frame.len(),
    ensures
        ({
            let parsed = parsed_ipv6(frame, frame_len, direction, socket_timestamp);
            &&& frame.len() < start + 40 ==> parsed == Err::<IpPacketView, IpParseError>(
                IpParseError::ShortIpv6,
            )
            &&& frame.len() >= start + 40 && frame[start] / 16 != 6 ==> parsed == Err::<
                IpPacketView,
                IpParseError,
            >(IpParseError::Ipv6Version { version: frame[start] / 16 })
        }),
{
    if frame.len() >= start + 40 {
        assert(ipv6_extent(frame, start)[0] == frame[start]);
    }
}

/// An IPv6 packet that has no room for a UDP header behind its other headers, or whose UDP
/// length is smaller than that, is refused.
pub proof fn law_cut_udp_refused(
    frame: Seq<u8>,
    start: int,
    packet: Seq<u8>,
    at: int,
    frame_len: usize,
    direction: PacketDirection,
    socket_timestamp: Timestamp,
)
    requires
        ipv6_l3_offset(frame) == Ok::<int, IpParseError>(start),
        frame.len() >= start + 40,
        packet == ipv6_extent(frame, start),
        packet[0] / 16 == 6,
        walk_headers(packet, packet[6], 40) == (HeaderWalk::Udp { offset: at }),
        40 <= at <= packet.len(),
    ensures
        ({
            let parsed = parsed_ipv6(frame, frame_len, direction, socket_timestamp);
            let len = packet[at + 4] * 256 + packet[at + 5];
            &&& packet.len() < at + 8 ==> parsed == Err::<IpPacketView, IpParseError>(
                IpParseError::ShortUdp,
            )
            &&& packet.len() >= at + 8 && len < 8 ==> parsed == Err::<IpPacketView, IpParseError>(
                IpParseError::UdpLength,
            )
            &&& packet.len() >= at + 8 && len >= 8 ==> (parsed matches Ok(view) && view.ip_payload
                == packet.subrange(
                at,
                if at + len <= packet.len() {
                    at + len
                } else {
                    packet.len() as int
                },
            ))
        }),
{
}

/// A datagram ends at its UDP length, or with the packet if that is cut.
pub proof fn law_where_a_datagram_ends(packet: Seq<u8>, at: int)
    requires
        0 <= at,
        at + 8 <= packet.len(),
    ensures
        ({
            let end = at + packet[at + 4] * 256 + packet[at + 5];
            &&& end <= packet.len() ==> udp_end(packet, at) == end
            &&& end > packet.len() ==> udp_end(packet, at) == packet.len()
        }),
{
}

/// What is read of a frame is the packet that it holds, or why it holds none.
pub proof fn law_reading_tells_the_packet(
    read: Result<CapturedIpPacket, IpParseError>,
    held: Result<IpPacketView, IpParseError>,
)
    requires
        is_parsed(read, held),
    ensures
        held matches Ok(view) ==> (read matches Ok(packet) && {
            &&& packet.socket_timestamp == view.socket_timestamp
            &&& packet.frame_len == view.frame_len
            &&& packet.direction == view.direction
            &&& packet.flow == view.flow
            &&& packet.ip_identification == view.ip_identification
            &&& payload_bytes(packet.ip_payload) == view.ip_payload
            &&& packet.fragment == view.fragment
        }),
        held matches Err(error) ==> (read matches Err(told) && told == error),
{
}

/// The payload of a datagram tells what the datagram tells.
pub proof fn law_payload_tells_its_datagram(
    payload: ReassembledUdpPayload,
    datagram: IpDatagramView,
)
    requires
        is_udp_payload_of(payload, datagram),
    ensures
        payload.socket_timestamp == datagram.socket_timestamp,
        payload.frame_len == datagram.frame_len,
        payload.direction == datagram.direction,
        payload.flow == datagram.flow,
        payload.ip_identification == datagram.ip_identification,
        payload.fragment_count == datagram.fragment_count,
        payload.was_fragmented == datagram.was_fragmented,
        payload_bytes(payload.udp_payload) == crate::capture::reassembly::udp_payload_of(
            datagram.ip_payload,
        ),
{
}

} // verus!
