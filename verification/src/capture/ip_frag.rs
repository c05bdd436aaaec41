//! IPv4 and IPv6 packets, as they stand in an Ethernet frame.

use crate::capture::socket::PacketDirection;
use crate::common::{v4_address, FlowTuple, IpAddr, Timestamp, IP_FAMILY_V6};
use crate::payload::payload_bytes;
use crate::wire::{array16, be16, be32, bytes16_at, read_be16, read_be32};
use bytes::Bytes;
use vstd::prelude::*;

verus! {

pub const ETH_HDR_LEN: usize = 14;

pub const VLAN_HDR_LEN: usize = 4;

pub const ETH_P_IPV4: u16 = 0x0800;

pub const ETH_P_8021Q: u16 = 0x8100;

pub const ETH_P_8021AD: u16 = 0x88a8;

pub const ETH_P_8021QINQ: u16 = 0x9100;

pub const ETH_P_IPV6: u16 = 0x86dd;

pub const IPV4_MIN_HDR_LEN: usize = 20;

pub const IPV6_HDR_LEN: usize = 40;

pub const UDP_PROTOCOL: u8 = 17;

pub const UDP_HDR_LEN: usize = 8;

pub const IPV6_NEXT_HEADER_HOP_BY_HOP: u8 = 0;

pub const IPV6_NEXT_HEADER_ROUTING: u8 = 43;

pub const IPV6_NEXT_HEADER_FRAGMENT: u8 = 44;

pub const IPV6_NEXT_HEADER_ESP: u8 = 50;

pub const IPV6_NEXT_HEADER_AUTH: u8 = 51;

pub const IPV6_NEXT_HEADER_NO_NEXT: u8 = 59;

pub const IPV6_NEXT_HEADER_DESTINATION: u8 = 60;

/// Why a frame holds no packet that can be used.
#[derive(Clone, Copy, Debug, Eq, PartialEq)]
pub enum IpParseError {
    /// The frame is shorter than an Ethernet header.
    ShortEthernet,
    /// The frame ends inside a VLAN tag.
    ShortVlan,
    /// The frame carries something other than IPv4.
    NotIpv4 { ethertype: u16 },
    /// The frame carries something other than IPv6.
    NotIpv6 { ethertype: u16 },
    /// The frame ends inside the smallest IPv4 header.
    ShortIpv4,
    /// The version nibble is not that of IPv4.
    Ipv4Version { version: u8 },
    /// The header length nibble is below the smallest header.
    Ipv4HeaderLength { words: u8 },
    /// The frame ends inside the declared IPv4 header.
    TruncatedIpv4Header,
    /// The IPv4 packet is not UDP.
    Ipv4NotUdp,
    /// The total length is smaller than the header.
    Ipv4TotalLength,
    /// The frame ends inside the IPv6 header.
    ShortIpv6,
    /// The version nibble is not that of IPv6.
    Ipv6Version { version: u8 },
    /// The packet ends inside an extension header.
    ShortExtension,
    /// The packet ends inside a fragment header.
    ShortFragment,
    /// The packet ends inside an authentication header.
    ShortAuthentication,
    /// The packet is encrypted.
    Esp,
    /// The packet says that nothing follows its headers.
    NoNextHeader,
    /// The packet carries a header of another kind.
    UnsupportedNextHeader { next_header: u8 },
    /// An extension header reaches past the end of the packet.
    ExtensionsExceedPayload,
    /// The packet ends inside the UDP header.
    ShortUdp,
    /// The UDP length is smaller than its header.
    UdpLength,
}

/// What makes fragments belong to one datagram.
#[derive(Clone, Copy, Debug, Eq, Hash, PartialEq)]
pub struct IpFragmentKey {
    pub src_ip: IpAddr,
    pub dst_ip: IpAddr,
    pub identification: u32,
    pub protocol: u8,
}

impl IpFragmentKey {
    /// Whether two keys are the same.
    pub fn same(&self, other: &IpFragmentKey) -> (r: bool)
        ensures
            r == (*self == *other),
    {
        self.src_ip.same(&other.src_ip) && self.dst_ip.same(&other.dst_ip) && self.identification
            == other.identification && self.protocol == other.protocol
    }
}

/// Where a fragment belongs in its datagram.
#[derive(Clone, Copy)]
pub struct IpFragmentInfo {
    pub key: IpFragmentKey,
    pub offset_bytes: usize,
    pub more_fragments: bool,
}

impl IpFragmentInfo {
    /// The datagram that the fragment is part of.
    pub fn key(&self) -> (r: IpFragmentKey)
        ensures
            r == self.key,
    {
        self.key
    }

    /// The position of the fragment's first byte.
    pub fn offset_bytes(&self) -> (r: usize)
        ensures
            r == self.offset_bytes,
    {
        self.offset_bytes
    }

    /// Whether another fragment follows this one.
    pub fn more_fragments(&self) -> (r: bool)
        ensures
            r == self.more_fragments,
    {
        self.more_fragments
    }
}

/// An IP packet lifted out of its frame. The payload still has its UDP header.
pub struct CapturedIpPacket {
    pub socket_timestamp: Timestamp,
    pub frame_len: usize,
    pub direction: PacketDirection,
    pub flow: FlowTuple,
    pub ip_identification: u16,
    pub ip_payload: Bytes,
    pub fragment: Option<IpFragmentInfo>,
}

/// What a [`CapturedIpPacket`] holds.
#[verifier::ext_equal]
pub struct IpPacketView {
    pub socket_timestamp: Timestamp,
    pub frame_len: usize,
    pub direction: PacketDirection,
    pub flow: FlowTuple,
    pub ip_identification: u16,
    pub ip_payload: Seq<u8>,
    pub fragment: Option<IpFragmentInfo>,
}

impl View for CapturedIpPacket {
    type V = IpPacketView;

    open spec fn view(&self) -> IpPacketView {
        IpPacketView {
            socket_timestamp: self.socket_timestamp,
            frame_len: self.frame_len,
            direction: self.direction,
            flow: self.flow,
            ip_identification: self.ip_identification,
            ip_payload: payload_bytes(self.ip_payload),
            fragment: self.fragment,
        }
    }
}

/// The end of a fragment within its datagram is a machine integer.
pub open spec fn fragment_fits(packet: IpPacketView) -> bool {
    packet.fragment matches Some(fragment) ==> fragment.offset_bytes + packet.ip_payload.len()
        <= usize::MAX
}

// Link layer.

/// The EtherTypes of VLAN tags.
pub open spec fn is_vlan(ethertype: u16) -> bool {
    ethertype == ETH_P_8021Q || ethertype == ETH_P_8021AD || ethertype == ETH_P_8021QINQ
}

/// Steps over at most `tags` VLAN tags, from the EtherType that stands before `offset`.
pub open spec fn skip_tags(frame: Seq<u8>, ethertype: u16, offset: int, tags: nat) -> Result<
    (u16, int),
    IpParseError,
>
    decreases tags,
{
    if tags == 0 || !is_vlan(ethertype) {
        Ok((ethertype, offset))
    } else if frame.len() < offset + VLAN_HDR_LEN {
        Err(IpParseError::ShortVlan)
    } else {
        skip_tags(
            frame,
            be16(frame[offset + 2], frame[offset + 3]),
            offset + VLAN_HDR_LEN,
            (tags - 1) as nat,
        )
    }
}

/// The EtherType of a frame's content and where that content starts.
pub open spec fn l3_offset(frame: Seq<u8>) -> Result<(u16, int), IpParseError> {
    if frame.len() < ETH_HDR_LEN {
        Err(IpParseError::ShortEthernet)
    } else {
        skip_tags(frame, be16(frame[12], frame[13]), ETH_HDR_LEN as int, 2)
    }
}

/// Where the frame's IPv4 packet starts.
pub open spec fn ipv4_l3_offset(frame: Seq<u8>) -> Result<int, IpParseError> {
    match l3_offset(frame) {
        Err(error) => Err(error),
        Ok((ethertype, offset)) => if ethertype != ETH_P_IPV4 {
            Err(IpParseError::NotIpv4 { ethertype })
        } else {
            Ok(offset)
        },
    }
}

/// Where the frame's IPv6 packet starts.
pub open spec fn ipv6_l3_offset(frame: Seq<u8>) -> Result<int, IpParseError> {
    match l3_offset(frame) {
        Err(error) => Err(error),
        Ok((ethertype, offset)) => if ethertype != ETH_P_IPV6 {
            Err(IpParseError::NotIpv6 { ethertype })
        } else {
            Ok(offset)
        },
    }
}

/// Finds the EtherType of a frame's content and where that content starts.
pub fn parse_l3_offset(frame: &[u8]) -> (r: Result<(u16, usize), IpParseError>)
    ensures
        match (r, l3_offset(frame@)) {
            (Ok((ethertype, offset)), Ok((want_ethertype, want_offset))) => ethertype
                == want_ethertype && offset == want_offset && offset <= frame@.len(),
            (Err(error), Err(want)) => error == want,
            _ => false,
        },
{
    if frame.len() < ETH_HDR_LEN {
        return Err(IpParseError::ShortEthernet);
    }
    let mut offset: usize = ETH_HDR_LEN;
    let mut ethertype: u16 = read_be16(frame[12], frame[13]);
    let mut remaining_tags: usize = 2;
    while remaining_tags > 0 && (ethertype == ETH_P_8021Q || ethertype == ETH_P_8021AD || ethertype
        == ETH_P_8021QINQ)
        invariant
            offset <= frame@.len(),
            offset + 4 * remaining_tags <= 22,
            l3_offset(frame@) == skip_tags(
                frame@,
                ethertype,
                offset as int,
                remaining_tags as nat,
            ),
        decreases remaining_tags,
    {
        if frame.len() < offset + VLAN_HDR_LEN {
            return Err(IpParseError::ShortVlan);
        }
        ethertype = read_be16(frame[offset + 2], frame[offset + 3]);
        offset += VLAN_HDR_LEN;
        remaining_tags -= 1;
    }
    Ok((ethertype, offset))
}

/// Finds where the frame's IPv4 packet starts.
pub fn parse_ipv4_l3_offset(frame: &[u8]) -> (r: Result<usize, IpParseError>)
    ensures
        match (r, ipv4_l3_offset(frame@)) {
            (Ok(offset), Ok(want)) => offset == want && offset <= frame@.len(),
            (Err(error), Err(want)) => error == want,
            _ => false,
        },
{
    match parse_l3_offset(frame) {
        Err(error) => Err(error),
        Ok((ethertype, offset)) => if ethertype != ETH_P_IPV4 {
            Err(IpParseError::NotIpv4 { ethertype })
        } else {
            Ok(offset)
        },
    }
}

/// Finds where the frame's IPv6 packet starts.
pub fn parse_ipv6_l3_offset(frame: &[u8]) -> (r: Result<usize, IpParseError>)
    ensures
        match (r, ipv6_l3_offset(frame@)) {
            (Ok(offset), Ok(want)) => offset == want && offset <= frame@.len(),
            (Err(error), Err(want)) => error == want,
            _ => false,
        },
{
    match parse_l3_offset(frame) {
        Err(error) => Err(error),
        Ok((ethertype, offset)) => if ethertype != ETH_P_IPV6 {
            Err(IpParseError::NotIpv6 { ethertype })
        } else {
            Ok(offset)
        },
    }
}

// IPv4.

/// The IPv4 address that the four bytes at `at` spell.
pub open spec fn v4_at(packet: Seq<u8>, at: int) -> IpAddr {
    v4_address(be32(packet[at], packet[at + 1], packet[at + 2], packet[at + 3]))
}

/// The IPv6 address that stands at `at`.
pub open spec fn v6_at(packet: Seq<u8>, at: int) -> IpAddr {
    IpAddr { family: IP_FAMILY_V6, bytes: bytes16_at(packet, at) }
}

/// `r` is the packet `want`, or the same error.
pub open spec fn is_parsed(
    r: Result<CapturedIpPacket, IpParseError>,
    want: Result<IpPacketView, IpParseError>,
) -> bool {
    match (r, want) {
        (Ok(packet), Ok(view)) => packet@ == view,
        (Err(error), Err(wanted)) => error == wanted,
        _ => false,
    }
}

/// Why an IPv4 packet cannot be used, if so. The packet is everything from its first
/// header byte to the end of the frame.
pub open spec fn ipv4_error(packet: Seq<u8>) -> Option<IpParseError> {
    if packet.len() < IPV4_MIN_HDR_LEN {
        Some(IpParseError::ShortIpv4)
    } else if packet[0] / 16 != 4 {
        Some(IpParseError::Ipv4Version { version: packet[0] / 16 })
    } else if packet[0] % 16 < 5 {
        Some(IpParseError::Ipv4HeaderLength { words: packet[0] % 16 })
    } else if packet.len() < ipv4_header_len(packet) {
        Some(IpParseError::TruncatedIpv4Header)
    } else if packet[9] != UDP_PROTOCOL {
        Some(IpParseError::Ipv4NotUdp)
    } else if ipv4_payload_end(packet) < ipv4_header_len(packet) {
        Some(IpParseError::Ipv4TotalLength)
    } else {
        None
    }
}

/// The length that an IPv4 packet declares for its header.
pub open spec fn ipv4_header_len(packet: Seq<u8>) -> int {
    (packet[0] % 16) * 4
}

/// Where an IPv4 packet ends: at its total length, or with the frame.
pub open spec fn ipv4_payload_end(packet: Seq<u8>) -> int {
    let total_len = be16(packet[2], packet[3]) as int;
    if total_len <= packet.len() {
        total_len
    } else {
        packet.len() as int
    }
}

/// What an IPv4 packet says of fragmentation: its flags and its offset.
pub open spec fn ipv4_fragment_bits(packet: Seq<u8>) -> u16 {
    be16(packet[6], packet[7])
}

/// Whether more fragments follow an IPv4 packet.
pub open spec fn ipv4_more_fragments(packet: Seq<u8>) -> bool {
    ipv4_fragment_bits(packet) / 0x2000 % 2 == 1
}

/// Where an IPv4 packet's payload belongs, in bytes.
pub open spec fn ipv4_fragment_offset(packet: Seq<u8>) -> int {
    (ipv4_fragment_bits(packet) % 0x2000) * 8
}

/// Where an IPv4 packet belongs in its datagram, unless it is the whole of it.
pub open spec fn ipv4_fragment(packet: Seq<u8>) -> Option<IpFragmentInfo> {
    if ipv4_more_fragments(packet) || ipv4_fragment_offset(packet) != 0 {
        Some(
            IpFragmentInfo {
                key: IpFragmentKey {
                    src_ip: v4_at(packet, 12),
                    dst_ip: v4_at(packet, 16),
                    identification: be16(packet[4], packet[5]) as u32,
                    protocol: packet[9],
                },
                offset_bytes: ipv4_fragment_offset(packet) as usize,
                more_fragments: ipv4_more_fragments(packet),
            },
        )
    } else {
        None
    }
}

/// The IPv4 packet that a frame carries.
pub open spec fn parsed_ipv4(
    frame: Seq<u8>,
    frame_len: usize,
    direction: PacketDirection,
    socket_timestamp: Timestamp,
) -> Result<IpPacketView, IpParseError> {
    match ipv4_l3_offset(frame) {
        Err(error) => Err(error),
        Ok(l3_offset) => {
            let packet = frame.skip(l3_offset);
            match ipv4_error(packet) {
                Some(error) => Err(error),
                None => Ok(
                    IpPacketView {
                        socket_timestamp,
                        frame_len,
                        direction,
                        flow: FlowTuple {
                            src_ip: v4_at(packet, 12),
                            dst_ip: v4_at(packet, 16),
                            src_port: 0,
                            dst_port: 0,
                        },
                        ip_identification: be16(packet[4], packet[5]),
                        ip_payload: packet.subrange(
                            ipv4_header_len(packet),
                            ipv4_payload_end(packet),
                        ),
                        fragment: ipv4_fragment(packet),
                    },
                ),
            }
        },
    }
}

/// A fragment in an IPv4 packet ends within machine limits.
pub proof fn lemma_ipv4_fragment_fits(
    frame: Seq<u8>,
    frame_len: usize,
    direction: PacketDirection,
    socket_timestamp: Timestamp,
)
    ensures
        parsed_ipv4(frame, frame_len, direction, socket_timestamp) matches Ok(packet)
            ==> fragment_fits(packet),
{
}

/// Lifts an IPv4 packet that carries UDP out of a frame.
pub fn parse_ipv4_packet(
    frame: &[u8],
    frame_len: usize,
    direction: PacketDirection,
    socket_timestamp: Timestamp,
) -> (r: Result<CapturedIpPacket, IpParseError>)
    ensures
        is_parsed(r, parsed_ipv4(frame@, frame_len, direction, socket_timestamp)),
{
    let l3_offset = match parse_ipv4_l3_offset(frame) {
        Err(error) => return Err(error),
        Ok(l3_offset) => l3_offset,
    };
    let packet = &frame[l3_offset..frame.len()];
    assert(packet@ =~= frame@.skip(l3_offset as int));
    if packet.len() < IPV4_MIN_HDR_LEN {
        return Err(IpParseError::ShortIpv4);
    }
    let version = packet[0] / 16;
    if version != 4 {
        return Err(IpParseError::Ipv4Version { version });
    }
    let ihl_words = packet[0] % 16;
    if ihl_words < 5 {
        return Err(IpParseError::Ipv4HeaderLength { words: ihl_words });
    }
    let ip_header_len: usize = ihl_words as usize * 4;
    if packet.len() < ip_header_len {
        return Err(IpParseError::TruncatedIpv4Header);
    }
    if packet[9] != UDP_PROTOCOL {
        return Err(IpParseError::Ipv4NotUdp);
    }
    let total_len: usize = read_be16(packet[2], packet[3]) as usize;
    let payload_end: usize = if total_len <= packet.len() { total_len } else { packet.len() };
    if payload_end < ip_header_len {
        return Err(IpParseError::Ipv4TotalLength);
    }
    let src_ip = IpAddr::from_v4(read_be32(packet[12], packet[13], packet[14], packet[15]));
    let dst_ip = IpAddr::from_v4(read_be32(packet[16], packet[17], packet[18], packet[19]));
    let identification: u16 = read_be16(packet[4], packet[5]);
    let fragment_bits: u16 = read_be16(packet[6], packet[7]);
    let more_fragments = fragment_bits / 0x2000 % 2 == 1;
    let fragment_offset_bytes: usize = (fragment_bits % 0x2000) as usize * 8;
    let ip_payload = Bytes::copy_from_slice(&packet[ip_header_len..payload_end]);
    let fragment = if more_fragments || fragment_offset_bytes != 0 {
        Some(
            IpFragmentInfo {
                key: IpFragmentKey {
                    src_ip,
                    dst_ip,
                    identification: identification as u32,
                    protocol: packet[9],
                },
                offset_bytes: fragment_offset_bytes,
                more_fragments,
            },
        )
    } else {
        None
    };
    Ok(
        CapturedIpPacket {
            socket_timestamp,
            frame_len,
            direction,
            flow: FlowTuple::new(src_ip, dst_ip, 0, 0),
            ip_identification: identification,
            ip_payload,
            fragment,
        },
    )
}

// IPv6.

/// How the chain of headers of an IPv6 packet ends.
pub enum HeaderWalk {
    /// At a UDP header.
    Udp { offset: int },
    /// At a fragment header.
    Fragment { offset: int },
    /// At something that cannot be used.
    Failed { error: IpParseError },
}

/// Follows the chain of headers of an IPv6 packet, from the header of kind
/// `next_header` at `offset`. The packet ends where its payload length says.
pub open spec fn walk_headers(packet: Seq<u8>, next_header: u8, offset: int) -> HeaderWalk
    decreases packet.len() - offset,
{
    if next_header == UDP_PROTOCOL {
        HeaderWalk::Udp { offset }
    } else if next_header == IPV6_NEXT_HEADER_HOP_BY_HOP || next_header == IPV6_NEXT_HEADER_ROUTING
        || next_header == IPV6_NEXT_HEADER_DESTINATION {
        if offset + 2 > packet.len() {
            HeaderWalk::Failed { error: IpParseError::ShortExtension }
        } else if offset + (packet[offset + 1] + 1) * 8 > packet.len() {
            HeaderWalk::Failed { error: IpParseError::ExtensionsExceedPayload }
        } else {
            walk_headers(packet, packet[offset], offset + (packet[offset + 1] + 1) * 8)
        }
    } else if next_header == IPV6_NEXT_HEADER_FRAGMENT {
        if offset + 8 > packet.len() {
            HeaderWalk::Failed { error: IpParseError::ShortFragment }
        } else {
            HeaderWalk::Fragment { offset }
        }
    } else if next_header == IPV6_NEXT_HEADER_AUTH {
        if offset + 2 > packet.len() {
            HeaderWalk::Failed { error: IpParseError::ShortAuthentication }
        } else if offset + (packet[offset + 1] + 2) * 4 > packet.len() {
            HeaderWalk::Failed { error: IpParseError::ExtensionsExceedPayload }
        } else {
            walk_headers(packet, packet[offset], offset + (packet[offset + 1] + 2) * 4)
        }
    } else if next_header == IPV6_NEXT_HEADER_ESP {
        HeaderWalk::Failed { error: IpParseError::Esp }
    } else if next_header == IPV6_NEXT_HEADER_NO_NEXT {
        HeaderWalk::Failed { error: IpParseError::NoNextHeader }
    } else {
        HeaderWalk::Failed { error: IpParseError::UnsupportedNextHeader { next_header } }
    }
}

/// The IPv6 packet that starts at `l3_offset`, up to where its payload length says or
/// to the end of the frame.
pub open spec fn ipv6_extent(frame: Seq<u8>, l3_offset: int) -> Seq<u8> {
    let end = l3_offset + IPV6_HDR_LEN + be16(frame[l3_offset + 4], frame[l3_offset + 5]);
    frame.subrange(
        l3_offset,
        if end <= frame.len() {
            end
        } else {
            frame.len() as int
        },
    )
}

/// Where the datagram at `offset` ends: at its UDP length, or with the packet.
pub open spec fn udp_end(packet: Seq<u8>, offset: int) -> int {
    let udp_len = be16(packet[offset + 4], packet[offset + 5]) as int;
    if offset + udp_len <= packet.len() {
        offset + udp_len
    } else {
        packet.len() as int
    }
}

/// Why an IPv6 packet cannot be used, if so.
pub open spec fn ipv6_error(frame: Seq<u8>, l3_offset: int) -> Option<IpParseError> {
    let packet = ipv6_extent(frame, l3_offset);
    if frame.len() < l3_offset + IPV6_HDR_LEN {
        Some(IpParseError::ShortIpv6)
    } else if packet[0] / 16 != 6 {
        Some(IpParseError::Ipv6Version { version: packet[0] / 16 })
    } else {
        match walk_headers(packet, packet[6], IPV6_HDR_LEN as int) {
            HeaderWalk::Failed { error } => Some(error),
            HeaderWalk::Fragment { offset } => None,
            HeaderWalk::Udp { offset } => if offset + UDP_HDR_LEN > packet.len() {
                Some(IpParseError::ShortUdp)
            } else if be16(packet[offset + 4], packet[offset + 5]) < UDP_HDR_LEN {
                Some(IpParseError::UdpLength)
            } else {
                None
            },
        }
    }
}

/// What a fragment header at `offset` says of the packet. Its offset counts in units of
/// eight bytes.
pub open spec fn ipv6_fragment(packet: Seq<u8>, offset: int) -> IpFragmentInfo {
    let fragment_bits = be16(packet[offset + 2], packet[offset + 3]);
    IpFragmentInfo {
        key: IpFragmentKey {
            src_ip: v6_at(packet, 8),
            dst_ip: v6_at(packet, 24),
            identification: be32(
                packet[offset + 4],
                packet[offset + 5],
                packet[offset + 6],
                packet[offset + 7],
            ),
            protocol: packet[offset],
        },
        offset_bytes: (fragment_bits / 8 * 8) as usize,
        more_fragments: fragment_bits % 2 == 1,
    }
}

/// The IPv6 packet that a frame carries: a whole datagram, or one fragment.
pub open spec fn parsed_ipv6(
    frame: Seq<u8>,
    frame_len: usize,
    direction: PacketDirection,
    socket_timestamp: Timestamp,
) -> Result<IpPacketView, IpParseError> {
    match ipv6_l3_offset(frame) {
        Err(error) => Err(error),
        Ok(l3_offset) => match ipv6_error(frame, l3_offset) {
            Some(error) => Err(error),
            None => {
                let packet = ipv6_extent(frame, l3_offset);
                let walk = walk_headers(packet, packet[6], IPV6_HDR_LEN as int);
                Ok(
                    IpPacketView {
                        socket_timestamp,
                        frame_len,
                        direction,
                        flow: FlowTuple {
                            src_ip: v6_at(packet, 8),
                            dst_ip: v6_at(packet, 24),
                            src_port: 0,
                            dst_port: 0,
                        },
                        ip_identification: match walk {
                            HeaderWalk::Fragment { offset } => be16(
                                packet[offset + 6],
                                packet[offset + 7],
                            ),
                            _ => 0,
                        },
                        ip_payload: match walk {
                            HeaderWalk::Fragment { offset } => packet.skip(offset + 8),
                            HeaderWalk::Udp { offset } => packet.subrange(
                                offset,
                                udp_end(packet, offset),
                            ),
                            HeaderWalk::Failed { error } => seq![],
                        },
                        fragment: match walk {
                            HeaderWalk::Fragment { offset } => Some(ipv6_fragment(packet, offset)),
                            _ => None,
                        },
                    },
                )
            },
        },
    }
}

/// A fragment in an IPv6 packet ends within machine limits.
pub proof fn lemma_ipv6_fragment_fits(
    frame: Seq<u8>,
    frame_len: usize,
    direction: PacketDirection,
    socket_timestamp: Timestamp,
)
    ensures
        parsed_ipv6(frame, frame_len, direction, socket_timestamp) matches Ok(packet)
            ==> fragment_fits(packet),
{
    match ipv6_l3_offset(frame) {
        Ok(l3_offset) => {
            let packet = ipv6_extent(frame, l3_offset);
            lemma_walk_within(packet, packet[6], IPV6_HDR_LEN as int);
            lemma_skip_tags_within(frame, be16(frame[12], frame[13]), ETH_HDR_LEN as int, 2);
        },
        Err(_) => {},
    }
}

proof fn lemma_skip_tags_within(frame: Seq<u8>, ethertype: u16, offset: int, tags: nat)
    requires
        0 <= offset <= frame.len(),
    ensures
        skip_tags(frame, ethertype, offset, tags) matches Ok((_, at)) ==> offset <= at
            <= frame.len(),
    decreases tags,
{
    if tags > 0 && is_vlan(ethertype) && frame.len() >= offset + VLAN_HDR_LEN {
        lemma_skip_tags_within(
            frame,
            be16(frame[offset + 2], frame[offset + 3]),
            offset + VLAN_HDR_LEN,
            (tags - 1) as nat,
        );
    }
}

proof fn lemma_walk_within(packet: Seq<u8>, next_header: u8, offset: int)
    requires
        0 <= offset,
    ensures
        walk_headers(packet, next_header, offset) matches HeaderWalk::Fragment { offset: at } ==> 0
            <= at && at + 8 <= packet.len(),
    decreases packet.len() - offset,
{
    if next_header == IPV6_NEXT_HEADER_HOP_BY_HOP || next_header == IPV6_NEXT_HEADER_ROUTING
        || next_header == IPV6_NEXT_HEADER_DESTINATION {
        if offset + 2 <= packet.len() && offset + (packet[offset + 1] + 1) * 8 <= packet.len() {
            lemma_walk_within(packet, packet[offset], offset + (packet[offset + 1] + 1) * 8);
        }
    } else if next_header == IPV6_NEXT_HEADER_AUTH {
        if offset + 2 <= packet.len() && offset + (packet[offset + 1] + 2) * 4 <= packet.len() {
            lemma_walk_within(packet, packet[offset], offset + (packet[offset + 1] + 2) * 4);
        }
    }
}

/// What an IPv6 header chain leads to.
enum HeaderEnd {
    Udp(usize),
    Fragment(usize),
}

/// Follows the chain of headers of an IPv6 packet.
fn follow_headers(packet: &[u8]) -> (r: Result<HeaderEnd, IpParseError>)
    requires
        packet@.len() >= IPV6_HDR_LEN,
    ensures
        match walk_headers(packet@, packet@[6], IPV6_HDR_LEN as int) {
            HeaderWalk::Failed { error } => r == Err::<HeaderEnd, IpParseError>(error),
            HeaderWalk::Udp { offset } => r matches Ok(HeaderEnd::Udp(got)) && got == offset
                && offset <= packet@.len(),
            HeaderWalk::Fragment { offset } => r matches Ok(HeaderEnd::Fragment(got)) && got
                == offset && offset + 8 <= packet@.len(),
        },
{
    let ghost goal = walk_headers(packet@, packet@[6], IPV6_HDR_LEN as int);
    let mut next_header: u8 = packet[6];
    let mut offset: usize = IPV6_HDR_LEN;
    loop
        invariant
            goal == walk_headers(packet@, next_header, offset as int),
            goal == walk_headers(packet@, packet@[6], IPV6_HDR_LEN as int),
            offset <= packet@.len(),
        decreases packet@.len() - offset,
    {
        let left: usize = packet.len() - offset;
        if next_header == UDP_PROTOCOL {
            return Ok(HeaderEnd::Udp(offset));
        } else if next_header == IPV6_NEXT_HEADER_HOP_BY_HOP || next_header
            == IPV6_NEXT_HEADER_ROUTING || next_header == IPV6_NEXT_HEADER_DESTINATION {
            if left < 2 {
                return Err(IpParseError::ShortExtension);
            }
            let header_len: usize = (packet[offset + 1] as usize + 1) * 8;
            if header_len > left {
                return Err(IpParseError::ExtensionsExceedPayload);
            }
            next_header = packet[offset];
            offset += header_len;
        } else if next_header == IPV6_NEXT_HEADER_FRAGMENT {
            if left < 8 {
                return Err(IpParseError::ShortFragment);
            }
            return Ok(HeaderEnd::Fragment(offset));
        } else if next_header == IPV6_NEXT_HEADER_AUTH {
            if left < 2 {
                return Err(IpParseError::ShortAuthentication);
            }
            let header_len: usize = (packet[offset + 1] as usize + 2) * 4;
            if header_len > left {
                return Err(IpParseError::ExtensionsExceedPayload);
            }
            next_header = packet[offset];
            offset += header_len;
        } else if next_header == IPV6_NEXT_HEADER_ESP {
            return Err(IpParseError::Esp);
        } else if next_header == IPV6_NEXT_HEADER_NO_NEXT {
            return Err(IpParseError::NoNextHeader);
        } else {
            return Err(IpParseError::UnsupportedNextHeader { next_header });
        }
    }
}

/// Lifts an IPv6 packet that carries UDP, or a fragment of one, out of a frame.
pub fn parse_ipv6_packet(
    frame: &[u8],
    frame_len: usize,
    direction: PacketDirection,
    socket_timestamp: Timestamp,
) -> (r: Result<CapturedIpPacket, IpParseError>)
    ensures
        is_parsed(r, parsed_ipv6(frame@, frame_len, direction, socket_timestamp)),
{
    let l3_offset = match parse_ipv6_l3_offset(frame) {
        Err(error) => return Err(error),
        Ok(l3_offset) => l3_offset,
    };
    if frame.len() - l3_offset < IPV6_HDR_LEN {
        return Err(IpParseError::ShortIpv6);
    }
    let payload_len: usize = read_be16(frame[l3_offset + 4], frame[l3_offset + 5]) as usize;
    let packet_end: usize = if payload_len <= frame.len() - l3_offset - IPV6_HDR_LEN {
        l3_offset + IPV6_HDR_LEN + payload_len
    } else {
        frame.len()
    };
    let packet = &frame[l3_offset..packet_end];
    assert(packet@ == ipv6_extent(frame@, l3_offset as int));
    let version = packet[0] / 16;
    if version != 6 {
        return Err(IpParseError::Ipv6Version { version });
    }
    let end = match follow_headers(packet) {
        Err(error) => return Err(error),
        Ok(end) => end,
    };
    let src_ip = IpAddr::from_v6(array16(packet, 8));
    let dst_ip = IpAddr::from_v6(array16(packet, 24));
    let flow = FlowTuple::new(src_ip, dst_ip, 0, 0);
    match end {
        HeaderEnd::Fragment(offset) => {
            let fragment_bits: u16 = read_be16(packet[offset + 2], packet[offset + 3]);
            let identification: u32 = read_be32(
                packet[offset + 4],
                packet[offset + 5],
                packet[offset + 6],
                packet[offset + 7],
            );
            let ip_payload = Bytes::copy_from_slice(&packet[offset + 8..packet.len()]);
            assert(payload_bytes(ip_payload) =~= packet@.skip(offset + 8));
            Ok(
                CapturedIpPacket {
                    socket_timestamp,
                    frame_len,
                    direction,
                    flow,
                    ip_identification: read_be16(packet[offset + 6], packet[offset + 7]),
                    ip_payload,
                    fragment: Some(
                        IpFragmentInfo {
                            key: IpFragmentKey {
                                src_ip,
                                dst_ip,
                                identification,
                                protocol: packet[offset],
                            },
                            offset_bytes: (fragment_bits / 8 * 8) as usize,
                            more_fragments: fragment_bits % 2 == 1,
                        },
                    ),
                },
            )
        },
        HeaderEnd::Udp(offset) => {
            if packet.len() - offset < UDP_HDR_LEN {
                return Err(IpParseError::ShortUdp);
            }
            let udp_len: usize = read_be16(packet[offset + 4], packet[offset + 5]) as usize;
            if udp_len < UDP_HDR_LEN {
                return Err(IpParseError::UdpLength);
            }
            let available_end: usize = if udp_len <= packet.len() - offset {
                offset + udp_len
            } else {
                packet.len()
            };
            Ok(
                CapturedIpPacket {
                    socket_timestamp,
                    frame_len,
                    direction,
                    flow,
                    ip_identification: 0,
                    ip_payload: Bytes::copy_from_slice(&packet[offset..available_end]),
                    fragment: None,
                },
            )
        },
    }
}

} // verus!
