//! The frames of the channel, and how a payload is split into frames and
//! into regions.

use vstd::prelude::*;
use vstd::slice::{slice_subrange, slice_to_vec};
use crate::error::Error;

verus! {

/// One message of the channel.
#[derive(Debug, PartialEq, Eq)]
pub enum Frame {
    Text(String),
    Binary(Vec<u8>),
    /// A frame that is neither text nor binary: a ping, a pong, a close.
    Other,
}

/// What a frame holds.
pub enum FrameView {
    Text(Seq<char>),
    Binary(Seq<u8>),
    Other,
}

impl View for Frame {
    type V = FrameView;

    open spec fn view(&self) -> FrameView {
        match self {
            Frame::Text(s) => FrameView::Text(s@),
            Frame::Binary(b) => FrameView::Binary(b@),
            Frame::Other => FrameView::Other,
        }
    }
}

/// What a list of frames holds.
pub open spec fn frames(v: Seq<Frame>) -> Seq<FrameView> {
    Seq::new(v.len(), |i: int| v[i]@)
}

/// What a list of buffers holds.
pub open spec fn payloads(v: Seq<Vec<u8>>) -> Seq<Seq<u8>> {
    Seq::new(v.len(), |i: int| v[i]@)
}

/// The first `upto` parts, one after the other.
pub open spec fn joined(parts: Seq<Seq<u8>>, upto: int) -> Seq<u8>
    decreases upto,
{
    if upto <= 0 || upto > parts.len() {
        Seq::empty()
    } else {
        joined(parts, upto - 1) + parts[upto - 1]
    }
}

/// The most bytes that one frame of an upload carries.
pub const CHUNK_SIZE: usize = 1024;

/// The number of frames that an upload of `len` bytes takes.
pub open spec fn chunk_count(len: nat) -> nat {
    (len + 1023) / 1024
}

/// Where the chunk with index `i` ends in a payload of `len` bytes.
pub open spec fn chunk_end(len: nat, i: int) -> int {
    if (i + 1) * 1024 <= len {
        (i + 1) * 1024
    } else {
        len as int
    }
}

/// The chunks of a payload: 1024 bytes each, in order, the last one what is
/// left.
pub open spec fn chunks_spec(data: Seq<u8>) -> Seq<Seq<u8>> {
    Seq::new(chunk_count(data.len()), |i: int| data.subrange(i * 1024, chunk_end(data.len(), i)))
}

/// Splits a payload into the chunks that are sent one per frame.
pub fn chunks(data: &Vec<u8>) -> (parts: Vec<Vec<u8>>)
    ensures
        payloads(parts@) == chunks_spec(data@),
{
    let mut parts: Vec<Vec<u8>> = Vec::new();
    let mut start: usize = 0;
    while start < data.len()
        invariant
            start <= data.len(),
            start == data.len() || start % 1024 == 0,
            start < data.len() ==> parts.len() == start / 1024,
            start == data.len() ==> parts.len() == chunk_count(data.len() as nat),
            forall|k: int|
                0 <= k < parts.len() ==> (#[trigger] parts[k])@ == data@.subrange(
                    k * 1024,
                    chunk_end(data.len() as nat, k),
                ),
        decreases data.len() - start,
    {
        let stop: usize = if data.len() - start > CHUNK_SIZE {
            start + CHUNK_SIZE
        } else {
            data.len()
        };
        let part = slice_to_vec(slice_subrange(data.as_slice(), start, stop));
        parts.push(part);
        start = stop;
    }
    parts
}

/// The sum of the first `upto` sizes.
pub open spec fn total(sizes: Seq<usize>, upto: int) -> nat
    decreases upto,
{
    if upto <= 0 || upto > sizes.len() {
        0
    } else {
        total(sizes, upto - 1) + sizes[upto - 1] as nat
    }
}

/// The regions of a buffer that holds them one after the other: the region
/// with index `i` starts where the sizes before it end, and has its size.
pub open spec fn regions_spec(data: Seq<u8>, sizes: Seq<usize>) -> Seq<Seq<u8>> {
    Seq::new(
        sizes.len(),
        |i: int| data.subrange(total(sizes, i) as int, total(sizes, i + 1) as int),
    )
}

/// Cuts a buffer into regions of the given sizes, in their order, without
/// gaps. A buffer that is shorter than the sizes together is refused.
pub fn split_regions(data: &Vec<u8>, sizes: &Vec<usize>) -> (r: Result<Vec<Vec<u8>>, Error>)
    ensures
        match r {
            Ok(parts) => total(sizes@, sizes.len() as int) <= data.len() && payloads(parts@)
                == regions_spec(data@, sizes@),
            Err(e) => e == Error::OutOfBounds && total(sizes@, sizes.len() as int) > data.len(),
        },
{
    let mut parts: Vec<Vec<u8>> = Vec::new();
    let mut consumed: usize = 0;
    let mut i: usize = 0;
    while i < sizes.len()
        invariant
            i <= sizes.len(),
            consumed <= data.len(),
            consumed == total(sizes@, i as int),
            parts.len() == i,
            forall|k: int|
                0 <= k < i ==> (#[trigger] parts[k])@ == data@.subrange(
                    total(sizes@, k) as int,
                    total(sizes@, k + 1) as int,
                ),
        decreases sizes.len() - i,
    {
        let size = sizes[i];
        if size > data.len() - consumed {
            proof {
                lemma_total_grows(sizes@, i + 1, sizes.len() as int);
            }
            return Err(Error::OutOfBounds);
        }
        let part = slice_to_vec(slice_subrange(data.as_slice(), consumed, consumed + size));
        parts.push(part);
        consumed = consumed + size;
        i = i + 1;
    }
    Ok(parts)
}

/// The sum of more sizes is no smaller.
pub proof fn lemma_total_grows(sizes: Seq<usize>, a: int, b: int)
    requires
        0 <= a <= b <= sizes.len(),
    ensures
        total(sizes, a) <= total(sizes, b),
    decreases b - a,
{
    if a < b {
        lemma_total_grows(sizes, a, b - 1);
    }
}

/// Every chunk holds at least one byte and at most 1024, and every chunk
/// but the last holds 1024.
pub proof fn lemma_chunk_sizes(data: Seq<u8>, i: int)
    requires
        0 <= i < chunk_count(data.len()),
    ensures
        0 < chunks_spec(data)[i].len() <= 1024,
        i + 1 < chunk_count(data.len()) ==> chunks_spec(data)[i].len() == 1024,
{
}

proof fn lemma_chunks_join_upto(data: Seq<u8>, upto: int)
    requires
        0 <= upto <= chunk_count(data.len()),
    ensures
        joined(chunks_spec(data), upto) == data.take(
            if upto == 0 {
                0
            } else {
                chunk_end(data.len(), upto - 1)
            },
        ),
    decreases upto,
{
    if upto > 0 {
        lemma_chunks_join_upto(data, upto - 1);
    }
}

/// The chunks of a payload, one after the other, are the payload.
pub proof fn lemma_chunks_join(data: Seq<u8>)
    ensures
        joined(chunks_spec(data), chunk_count(data.len()) as int) == data,
{
    lemma_chunks_join_upto(data, chunk_count(data.len()) as int);
}

proof fn lemma_regions_join_upto(data: Seq<u8>, sizes: Seq<usize>, upto: int)
    requires
        0 <= upto <= sizes.len(),
        total(sizes, sizes.len() as int) <= data.len(),
    ensures
        joined(regions_spec(data, sizes), upto) == data.take(total(sizes, upto) as int),
    decreases upto,
{
    lemma_total_grows(sizes, upto, sizes.len() as int);
    if upto > 0 {
        lemma_regions_join_upto(data, sizes, upto - 1);
        lemma_total_grows(sizes, upto - 1, upto);
    }
}

/// The regions of a buffer have the sizes that were asked for and, one
/// after the other, are the buffer as far as the sizes reach: nothing is
/// left out between them and nothing is held twice.
pub proof fn lemma_regions_join(data: Seq<u8>, sizes: Seq<usize>)
    requires
        total(sizes, sizes.len() as int) <= data.len(),
    ensures
        forall|i: int|
            0 <= i < sizes.len() ==> (#[trigger] regions_spec(data, sizes)[i]).len() == sizes[i],
        joined(regions_spec(data, sizes), sizes.len() as int) == data.take(
            total(sizes, sizes.len() as int) as int,
        ),
{
    lemma_regions_join_upto(data, sizes, sizes.len() as int);
    assert forall|i: int| 0 <= i < sizes.len() implies (#[trigger] regions_spec(
        data,
        sizes,
    )[i]).len() == sizes[i] by {
        lemma_total_grows(sizes, i + 1, sizes.len() as int);
        lemma_total_grows(sizes, i, i + 1);
    }
}

} // verus!
