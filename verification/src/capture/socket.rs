//! What the capture socket hands over: batches of frames.

use crate::common::Timestamp;
use vstd::prelude::*;

verus! {

/// Which way a frame was travelling when it was captured.
#[derive(Clone, Copy, Debug, Eq, PartialEq)]
pub enum PacketDirection {
    Host,
    Broadcast,
    Multicast,
    OtherHost,
    Outgoing,
    Unknown(u8),
}

/// One captured frame. The bytes stay in the capture ring.
#[derive(Clone, Copy)]
pub struct PacketFrame<'a> {
    pub data: &'a [u8],
    pub socket_timestamp: Timestamp,
    pub original_len: usize,
    pub direction: PacketDirection,
}

impl<'a> PacketFrame<'a> {
    /// The captured bytes.
    pub fn data(&self) -> (r: &'a [u8])
        ensures
            r@ == self.data@,
    {
        self.data
    }

    /// When the frame was captured.
    pub fn socket_timestamp(&self) -> (r: Timestamp)
        ensures
            r == self.socket_timestamp,
    {
        self.socket_timestamp
    }

    /// The frame's length on the wire, of which fewer bytes may have been captured.
    pub fn original_len(&self) -> (r: usize)
        ensures
            r == self.original_len,
    {
        self.original_len
    }

    /// Which way the frame was travelling.
    pub fn direction(&self) -> (r: PacketDirection)
        ensures
            r == self.direction,
    {
        self.direction
    }
}

/// The frames of one read from the capture ring, oldest first.
pub struct PacketBatch<'a> {
    pub frames: Vec<PacketFrame<'a>>,
}

impl<'a> PacketBatch<'a> {
    /// The frames, oldest first.
    pub fn frames(&self) -> (r: &Vec<PacketFrame<'a>>)
        ensures
            *r == self.frames,
    {
        &self.frames
    }

    /// Whether the batch holds no frame.
    pub fn is_empty(&self) -> (r: bool)
        ensures
            r == (self.frames@.len() == 0),
    {
        self.frames.len() == 0
    }

    /// The number of frames.
    pub fn len(&self) -> (r: usize)
        ensures
            r == self.frames@.len(),
    {
        self.frames.len()
    }
}

} // verus!
