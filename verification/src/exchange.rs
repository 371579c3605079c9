//! Whole exchanges: what comes of an operation when the frames of the
//! device's answer arrive one after the other.

use vstd::prelude::*;
use crate::client::{
    bytes_start, payload_frames, regions_start, reply_results, step, ResponseView, State,
    StepView,
};
use crate::envelope::{lemma_reply_round_trip, result_text};
use crate::error::Error;
use crate::frame::{
    chunk_count, chunks_spec, joined, lemma_chunk_sizes, lemma_chunks_join, lemma_total_grows,
    regions_spec, total, FrameView,
};
use crate::hex::{hex_digits, hex_value, lemma_hex_round_trip};
use crate::reassembly::{gathered, lemma_gathered_grows};
use crate::reply::length_spec;

verus! {

/// What comes of handing the frames from index `from` on to a client in the
/// given state, one by one, until a frame ends the operation: the state the
/// client is left in and what the last frame led to. Frames behind the one
/// that ends the operation are not read.
pub open spec fn run(state: State, frames: Seq<FrameView>, from: int) -> (State, StepView)
    decreases frames.len() - from,
{
    if from < 0 || from >= frames.len() {
        (state, StepView::Pending)
    } else {
        let (next, taken) = step(state, frames[from]);
        if taken is Pending {
            run(next, frames, from + 1)
        } else {
            (next, taken)
        }
    }
}

/// What comes of an operation that has started as `start` says, when the
/// frames of the device's answer arrive: an operation that has its result
/// at the start reads no frame; any other is handed the frames one by one.
pub open spec fn outcome(start: (State, Option<ResponseView>), frames: Seq<FrameView>) -> (
    State,
    StepView,
) {
    match start.1 {
        Some(response) => (start.0, StepView::Done(response)),
        None => run(start.0, frames, 0),
    }
}

/// A client never waits for bytes that it has: a read starts either over or
/// lacking bytes, and a frame leaves a client that lacked bytes either idle
/// or lacking bytes still.
pub proof fn lemma_waiting_lacks_bytes(
    state: State,
    frame: FrameView,
    target: usize,
    sizes: Seq<usize>,
)
    requires
        state.lacks_bytes(),
    ensures
        step(state, frame).0.lacks_bytes(),
        bytes_start(target).0.lacks_bytes(),
        regions_start(sizes).0.lacks_bytes(),
{
}

/// While bytes are waited for, a frame of another kind changes nothing: it
/// neither ends the read nor adds to it.
pub proof fn lemma_other_frames_are_passed_over(state: State, frame: FrameView)
    requires
        state.lacks_bytes(),
        state is Bytes || state is Regions,
        !(frame is Binary),
    ensures
        step(state, frame) == (state, StepView::Pending),
{
}

/// A read of no bytes ends without a frame: whatever the device sends or
/// does not send, the operation is over once the request is sent, with no
/// bytes, and the client waits for nothing.
pub proof fn lemma_read_of_nothing(frames: Seq<FrameView>)
    ensures
        outcome(bytes_start(0), frames) == (
            State::Idle,
            StepView::Done(ResponseView::Bytes(Seq::empty())),
        ),
{
}

/// A read of regions that hold no byte together ends without a frame, with
/// an empty buffer for each region.
pub proof fn lemma_regions_of_nothing(sizes: Seq<usize>, frames: Seq<FrameView>)
    requires
        total(sizes, sizes.len() as int) == 0,
    ensures
        outcome(regions_start(sizes), frames) == (
            State::Idle,
            StepView::Done(
                ResponseView::Regions(Seq::new(sizes.len(), |i: int| Seq::<u8>::empty())),
            ),
        ),
{
    let regions = regions_spec(Seq::<u8>::empty(), sizes);
    assert forall|i: int| 0 <= i < sizes.len() implies #[trigger] regions[i] == Seq::<u8>::empty(
    ) by {
        lemma_total_grows(sizes, i, sizes.len() as int);
        lemma_total_grows(sizes, i + 1, sizes.len() as int);
        assert(regions[i] =~= Seq::<u8>::empty());
    }
    assert(regions =~= Seq::new(sizes.len(), |i: int| Seq::<u8>::empty()));
}

/// A download of an empty file ends at the reply: where the reply declares
/// the length zero, the operation is over with no bytes, and the client
/// waits for nothing.
pub proof fn lemma_empty_file_ends_at_reply(frame: FrameView, results: Seq<Seq<char>>)
    requires
        reply_results(frame) == Ok::<Seq<Seq<char>>, Error>(results),
        length_spec(results) == Ok::<usize, Error>(0),
    ensures
        step(State::FileLength, frame) == (
            State::Idle,
            StepView::Done(ResponseView::Bytes(Seq::empty())),
        ),
{
}

proof fn lemma_bytes_from(target: usize, frames: Seq<FrameView>, from: int)
    requires
        0 <= from < frames.len(),
        gathered(frames, frames.len() as int).len() == target,
    ensures
        run(State::Bytes { target, received: gathered(frames, from) }, frames, from) == (
            State::Idle,
            StepView::Done(ResponseView::Bytes(gathered(frames, frames.len() as int))),
        ),
    decreases frames.len() - from,
{
    let all = gathered(frames, frames.len() as int);
    let next = gathered(frames, from + 1);
    lemma_gathered_grows(frames, from + 1, frames.len() as int);
    if next.len() == target {
        assert(all.take(all.len() as int) =~= all);
    } else {
        lemma_bytes_from(target, frames, from + 1);
    }
}

/// A read of memory gives the bytes that arrive, however the device
/// divides them into frames: whenever the binary frames of the answer hold
/// together exactly the bytes asked for, the operation ends with those
/// bytes, in order. Where no byte is asked for, no frame is read.
pub proof fn lemma_bytes_arrive(target: usize, frames: Seq<FrameView>)
    requires
        gathered(frames, frames.len() as int).len() == target,
    ensures
        outcome(bytes_start(target), frames) == (
            State::Idle,
            StepView::Done(ResponseView::Bytes(gathered(frames, frames.len() as int))),
        ),
{
    if target == 0 {
        assert(gathered(frames, frames.len() as int) =~= Seq::<u8>::empty());
    } else {
        lemma_bytes_from(target, frames, 0);
    }
}

proof fn lemma_regions_from(sizes: Seq<usize>, frames: Seq<FrameView>, from: int)
    requires
        0 <= from < frames.len(),
        gathered(frames, frames.len() as int).len() == total(sizes, sizes.len() as int),
    ensures
        run(State::Regions { received: gathered(frames, from), sizes }, frames, from) == (
            State::Idle,
            StepView::Done(
                ResponseView::Regions(regions_spec(gathered(frames, frames.len() as int), sizes)),
            ),
        ),
    decreases frames.len() - from,
{
    let target = total(sizes, sizes.len() as int);
    let all = gathered(frames, frames.len() as int);
    let next = gathered(frames, from + 1);
    lemma_gathered_grows(frames, from + 1, frames.len() as int);
    if next.len() == target {
        assert(all.take(all.len() as int) =~= all);
    } else {
        lemma_regions_from(sizes, frames, from + 1);
    }
}

/// A read of several regions gives each region its bytes: whenever the
/// binary frames of the answer hold together as many bytes as the regions
/// have, the operation ends with the bytes cut at the regions' sizes, in
/// the order in which the regions were asked for. Where the regions hold no
/// byte, no frame is read.
pub proof fn lemma_regions_arrive(sizes: Seq<usize>, frames: Seq<FrameView>)
    requires
        gathered(frames, frames.len() as int).len() == total(sizes, sizes.len() as int),
    ensures
        outcome(regions_start(sizes), frames) == (
            State::Idle,
            StepView::Done(
                ResponseView::Regions(regions_spec(gathered(frames, frames.len() as int), sizes)),
            ),
        ),
{
    if total(sizes, sizes.len() as int) == 0 {
        assert(gathered(frames, frames.len() as int) =~= Seq::<u8>::empty());
    } else {
        lemma_regions_from(sizes, frames, 0);
    }
}

/// The frames of a download: the reply that gives the length, then the
/// frames of the content.
pub open spec fn download(length: usize, content: Seq<FrameView>) -> Seq<FrameView> {
    seq![FrameView::Text(result_text(seq![hex_digits(length as nat)]))] + content
}

proof fn lemma_download_from(length: usize, content: Seq<FrameView>, from: int)
    requires
        0 <= from < content.len(),
        gathered(content, content.len() as int).len() == length,
    ensures
        run(
            State::Bytes { target: length, received: gathered(content, from) },
            download(length, content),
            from + 1,
        ) == (
            State::Idle,
            StepView::Done(ResponseView::Bytes(gathered(content, content.len() as int))),
        ),
    decreases content.len() - from,
{
    let frames = download(length, content);
    let all = gathered(content, content.len() as int);
    let next = gathered(content, from + 1);
    lemma_gathered_grows(content, from + 1, content.len() as int);
    if next.len() == length {
        assert(all.take(all.len() as int) =~= all);
    } else {
        lemma_download_from(length, content, from + 1);
    }
}

/// A download gives the file: after a reply that declares the length in
/// hexadecimal, whenever the binary frames that follow hold together
/// exactly that many bytes, the operation ends with those bytes. Where the
/// length is zero, it ends at the reply and no further frame is read.
pub proof fn lemma_file_arrives(length: usize, content: Seq<FrameView>)
    requires
        gathered(content, content.len() as int).len() == length,
    ensures
        run(State::FileLength, download(length, content), 0) == (
            State::Idle,
            StepView::Done(ResponseView::Bytes(gathered(content, content.len() as int))),
        ),
{
    let results = seq![hex_digits(length as nat)];
    lemma_reply_round_trip(results);
    lemma_hex_round_trip(length as nat);
    if length == 0 {
        assert(gathered(content, content.len() as int) =~= Seq::<u8>::empty());
    } else {
        lemma_download_from(length, content, 0);
    }
}

proof fn lemma_upload_upto(data: Seq<u8>, upto: int)
    requires
        0 <= upto <= chunk_count(data.len()),
    ensures
        gathered(payload_frames(data), upto) == joined(chunks_spec(data), upto),
    decreases upto,
{
    if upto > 0 {
        lemma_upload_upto(data, upto - 1);
    }
}

/// An upload carries the file: every frame of the content holds at least
/// one byte and at most 1024, and the frames put together again are the
/// file, byte for byte, as long as the length that the request declares.
pub proof fn lemma_upload_carries_file(data: Seq<u8>)
    ensures
        payload_frames(data).len() == chunk_count(data.len()),
        forall|i: int|
            0 <= i < payload_frames(data).len() ==> (#[trigger] payload_frames(data)[i]
                matches FrameView::Binary(bytes) && 0 < bytes.len() <= 1024),
        gathered(payload_frames(data), payload_frames(data).len() as int) == data,
        hex_value(hex_digits(data.len())) == Some(data.len()),
{
    lemma_upload_upto(data, chunk_count(data.len()) as int);
    lemma_chunks_join(data);
    lemma_hex_round_trip(data.len());
    assert forall|i: int| 0 <= i < payload_frames(data).len() implies (#[trigger] payload_frames(
        data,
    )[i] matches FrameView::Binary(bytes) && 0 < bytes.len() <= 1024) by {
        lemma_chunk_sizes(data, i);
    }
}

} // verus!
