//! Addresses, flows, identifiers and timestamps shared by all modules.

use vstd::prelude::*;

verus! {

/// Family tag of an IPv4 address.
pub const IP_FAMILY_V4: u8 = 4;

/// Family tag of an IPv6 address.
pub const IP_FAMILY_V6: u8 = 6;

/// An IPv4 or IPv6 address. An IPv4 address occupies the first four bytes, in
/// network order, and the rest is zero.
#[derive(Clone, Copy, Debug, Eq, Hash, PartialEq)]
pub struct IpAddr {
    pub family: u8,
    pub bytes: [u8; 16],
}

/// The address whose IPv4 value is `address`.
pub open spec fn v4_address(address: u32) -> IpAddr {
    IpAddr {
        family: IP_FAMILY_V4,
        bytes: [
            (address / 0x100_0000) as u8,
            (address / 0x1_0000 % 256) as u8,
            (address / 0x100 % 256) as u8,
            (address % 256) as u8,
            0, 0, 0, 0, 0, 0, 0, 0, 0, 0, 0, 0,
        ],
    }
}

/// Whether two byte arrays hold the same bytes.
pub fn same_bytes(a: &[u8; 16], b: &[u8; 16]) -> (r: bool)
    ensures
        r == (*a == *b),
{
    let mut i: usize = 0;
    while i < 16
        invariant
            i <= 16,
            forall|j: int| 0 <= j < i ==> a@[j] == b@[j],
        decreases 16 - i,
    {
        if a[i] != b[i] {
            return false;
        }
        i += 1;
    }
    assert(*a =~= *b);
    true
}

impl IpAddr {
    /// The address whose IPv4 value is `address`.
    pub fn from_v4(address: u32) -> (r: IpAddr)
        ensures
            r == v4_address(address),
    {
        let bytes: [u8; 16] = [
            (address / 0x100_0000) as u8,
            (address / 0x1_0000 % 256) as u8,
            (address / 0x100 % 256) as u8,
            (address % 256) as u8,
            0, 0, 0, 0, 0, 0, 0, 0, 0, 0, 0, 0,
        ];
        let r = IpAddr { family: IP_FAMILY_V4, bytes };
        assert(r.bytes =~= v4_address(address).bytes);
        r
    }

    /// The IPv6 address with the given bytes.
    pub fn from_v6(bytes: [u8; 16]) -> (r: IpAddr)
        ensures
            r == (IpAddr { family: IP_FAMILY_V6, bytes }),
    {
        IpAddr { family: IP_FAMILY_V6, bytes }
    }

    /// Whether two addresses are the same address.
    pub fn same(&self, other: &IpAddr) -> (r: bool)
        ensures
            r == (*self == *other),
    {
        self.family == other.family && same_bytes(&self.bytes, &other.bytes)
    }
}

/// Source and destination of a datagram.
#[derive(Clone, Copy, Debug, Eq, Hash, PartialEq)]
pub struct FlowTuple {
    pub src_ip: IpAddr,
    pub dst_ip: IpAddr,
    pub src_port: u16,
    pub dst_port: u16,
}

impl FlowTuple {
    /// The flow between the given addresses and ports.
    pub fn new(src_ip: IpAddr, dst_ip: IpAddr, src_port: u16, dst_port: u16) -> (r: FlowTuple)
        ensures
            r == (FlowTuple { src_ip, dst_ip, src_port, dst_port }),
    {
        FlowTuple { src_ip, dst_ip, src_port, dst_port }
    }
}

/// The sixteen-byte identifier of a DDS participant or endpoint.
#[derive(Clone, Copy, Debug, Eq, Hash, PartialEq)]
pub struct TopicGid {
    pub bytes: [u8; 16],
}

impl TopicGid {
    /// The identifier with the given bytes.
    pub fn new(bytes: [u8; 16]) -> (r: TopicGid)
        ensures
            r.bytes == bytes,
    {
        TopicGid { bytes }
    }

    /// Whether two identifiers are the same.
    pub fn same(&self, other: &TopicGid) -> (r: bool)
        ensures
            r == (*self == *other),
    {
        same_bytes(&self.bytes, &other.bytes)
    }
}

/// A point in time, as nanoseconds since the Unix epoch. It is negative before it.
#[derive(Clone, Copy, Debug, Eq, PartialEq)]
pub struct Timestamp {
    pub unix_nanos: i128,
}

/// Why a timestamp has no value in unsigned 64-bit nanoseconds.
#[derive(Clone, Copy, Debug, Eq, PartialEq)]
pub enum TimestampError {
    /// The timestamp is earlier than the Unix epoch.
    BeforeEpoch,
    /// The nanoseconds since the epoch exceed 64 bits.
    TooLarge,
}

/// Nanoseconds since the Unix epoch.
pub fn system_time_to_nanos(timestamp: Timestamp) -> (r: Result<u64, TimestampError>)
    ensures
        r == (if timestamp.unix_nanos < 0 {
            Err::<u64, TimestampError>(TimestampError::BeforeEpoch)
        } else if timestamp.unix_nanos > u64::MAX {
            Err(TimestampError::TooLarge)
        } else {
            Ok(timestamp.unix_nanos as u64)
        }),
{
    if timestamp.unix_nanos < 0 {
        Err(TimestampError::BeforeEpoch)
    } else if timestamp.unix_nanos > u64::MAX as i128 {
        Err(TimestampError::TooLarge)
    } else {
        Ok(timestamp.unix_nanos as u64)
    }
}

} // verus!
