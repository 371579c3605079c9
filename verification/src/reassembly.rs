//! Putting a binary payload together from the frames in which it arrives.

use vstd::prelude::*;
use crate::frame::{Frame, FrameView};

verus! {

/// How far a payload has come.
#[derive(Debug, Clone, Copy, PartialEq, Eq, Structural)]
pub enum Status {
    /// Fewer bytes than asked for have arrived.
    Pending,
    /// Exactly the bytes asked for have arrived.
    Complete,
    /// More bytes than asked for have arrived.
    Overrun,
}

/// A payload that is being put together: the number of bytes asked for and
/// the bytes that have arrived.
#[derive(Debug)]
pub struct Reassembler {
    target: usize,
    data: Vec<u8>,
}

/// The bytes held after a frame has arrived: a binary frame's bytes are
/// added at the end, any other frame is passed over.
pub open spec fn absorb(received: Seq<u8>, frame: FrameView) -> Seq<u8> {
    match frame {
        FrameView::Binary(bytes) => received + bytes,
        _ => received,
    }
}

/// How far a payload of `target` bytes has come with `len` bytes. A payload
/// of no bytes is complete before any frame.
pub open spec fn status_of(len: nat, target: nat) -> Status {
    if len == target {
        Status::Complete
    } else if len > target {
        Status::Overrun
    } else {
        Status::Pending
    }
}

/// The bytes of the first `upto` frames, in order.
pub open spec fn gathered(frames: Seq<FrameView>, upto: int) -> Seq<u8>
    decreases upto,
{
    if upto <= 0 || upto > frames.len() {
        Seq::empty()
    } else {
        absorb(gathered(frames, upto - 1), frames[upto - 1])
    }
}

impl Reassembler {
    /// The number of bytes asked for.
    pub closed spec fn target(&self) -> usize {
        self.target
    }

    /// The bytes that have arrived.
    pub closed spec fn received(&self) -> Seq<u8> {
        self.data@
    }

    /// A payload of `target` bytes of which nothing has arrived.
    pub fn new(target: usize) -> (r: Self)
        ensures
            r.target() == target,
            r.received() == Seq::<u8>::empty(),
    {
        Reassembler { target, data: Vec::new() }
    }

    /// How far the payload has come. Nothing more is to be read for a
    /// payload that is complete.
    pub fn status(&self) -> (status: Status)
        ensures
            status == status_of(self.received().len(), self.target() as nat),
    {
        if self.data.len() == self.target {
            Status::Complete
        } else if self.data.len() > self.target {
            Status::Overrun
        } else {
            Status::Pending
        }
    }

    /// Takes the next frame and says how far the payload has come with it.
    pub fn accept(&mut self, frame: &Frame) -> (status: Status)
        ensures
            final(self).target() == old(self).target(),
            final(self).received() == absorb(old(self).received(), frame@),
            status == status_of(final(self).received().len(), old(self).target() as nat),
    {
        match frame {
            Frame::Binary(bytes) => {
                self.data.extend_from_slice(bytes.as_slice());
            },
            _ => {},
        }
        self.status()
    }

    /// The bytes that have arrived.
    pub fn into_bytes(self) -> (data: Vec<u8>)
        ensures
            data@ == self.received(),
    {
        self.data
    }
}

/// The bytes in hand never get fewer.
pub proof fn lemma_gathered_grows(frames: Seq<FrameView>, a: int, b: int)
    requires
        0 <= a <= b <= frames.len(),
    ensures
        gathered(frames, a).len() <= gathered(frames, b).len(),
        gathered(frames, a) == gathered(frames, b).take(gathered(frames, a).len() as int),
    decreases b - a,
{
    if a < b {
        lemma_gathered_grows(frames, a, b - 1);
    } else {
    }
}

} // verus!
