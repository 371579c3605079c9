//! The client's side of the conversation: what to send for each operation,
//! and what each frame that comes back means for the operation in flight.
//! The client owns no socket. An operation hands out the frames to send;
//! the frames that arrive are handed in one by one.

use vstd::prelude::*;
use vstd::slice::slice_to_vec;
use crate::command::{Command, Space};
use crate::envelope::{query_text, request, results_of, USB2SnesQuery, USB2SnesResult};
use crate::error::Error;
use crate::frame::{
    chunks, chunks_spec, frames, lemma_total_grows, payloads, regions_spec, split_regions, total,
    Frame, FrameView,
};
use crate::hex::{hex_digits, to_hex};
use crate::reassembly::{absorb, status_of, Reassembler, Status};
use crate::reply::{
    infos_of, infos_spec, length_of, length_spec, listing_of, listing_spec, version_of,
    version_spec,
};
use crate::text::{lemma_views_push, views};
use crate::types::{
    file_infos, url_of, FileInfoView, Infos, InfosView, USB2SnesEndpoint, USB2SnesFileInfo,
};

verus! {

/// What an operation starts with: the frames to send, in order, the lines
/// of the trace, which are empty unless the client was made to trace, and
/// the operation's result where it has one without a frame from the
/// device: a read of no bytes is over once the request is sent.
#[derive(Debug, PartialEq, Eq)]
pub struct Transmission {
    pub frames: Vec<Frame>,
    pub trace: Vec<String>,
    pub result: Option<Response>,
}

/// What a `Transmission` holds.
pub struct TransmissionView {
    pub frames: Seq<FrameView>,
    pub trace: Seq<Seq<char>>,
    pub result: Option<ResponseView>,
}

impl View for Transmission {
    type V = TransmissionView;

    open spec fn view(&self) -> TransmissionView {
        TransmissionView {
            frames: frames(self.frames@),
            trace: views(self.trace@),
            result: match self.result {
                Some(response) => Some(response@),
                None => None,
            },
        }
    }
}

/// The result of an operation that has one.
#[derive(Debug, PartialEq, Eq)]
pub enum Response {
    Version(String),
    Devices(Vec<String>),
    Info(Infos),
    Listing(Vec<USB2SnesFileInfo>),
    Bytes(Vec<u8>),
    Regions(Vec<Vec<u8>>),
}

/// What a `Response` holds.
pub enum ResponseView {
    Version(Seq<char>),
    Devices(Seq<Seq<char>>),
    Info(InfosView),
    Listing(Seq<FileInfoView>),
    Bytes(Seq<u8>),
    Regions(Seq<Seq<u8>>),
}

impl View for Response {
    type V = ResponseView;

    open spec fn view(&self) -> ResponseView {
        match self {
            Response::Version(s) => ResponseView::Version(s@),
            Response::Devices(v) => ResponseView::Devices(views(v@)),
            Response::Info(i) => ResponseView::Info(i@),
            Response::Listing(v) => ResponseView::Listing(file_infos(v@)),
            Response::Bytes(b) => ResponseView::Bytes(b@),
            Response::Regions(v) => ResponseView::Regions(payloads(v@)),
        }
    }
}

/// What a frame that arrived has led to.
#[derive(Debug, PartialEq, Eq)]
pub enum Step {
    /// No operation was waiting for a frame; the frame was dropped.
    Ignored,
    /// The operation needs more frames.
    Pending,
    /// The operation is done, with this result.
    Done(Response),
    /// The operation has failed.
    Failed(Error),
}

/// What a `Step` holds.
pub enum StepView {
    Ignored,
    Pending,
    Done(ResponseView),
    Failed(Error),
}

impl View for Step {
    type V = StepView;

    open spec fn view(&self) -> StepView {
        match self {
            Step::Ignored => StepView::Ignored,
            Step::Pending => StepView::Pending,
            Step::Done(r) => StepView::Done(r@),
            Step::Failed(e) => StepView::Failed(*e),
        }
    }
}

/// What the client is waiting for.
pub enum State {
    /// Nothing: no operation is in flight.
    Idle,
    /// The reply to `AppVersion`.
    Version,
    /// The reply to `DeviceList`.
    Devices,
    /// The reply to `Info`.
    Info,
    /// The reply to `List`.
    Listing,
    /// The reply to `GetFile`, which gives the file's length.
    FileLength,
    /// The rest of a payload of `target` bytes, of which fewer have
    /// arrived.
    Bytes { target: usize, received: Seq<u8> },
    /// The rest of a payload that holds regions of the given sizes, one
    /// after the other, and of which fewer bytes have arrived than the
    /// regions hold together.
    Regions { received: Seq<u8>, sizes: Seq<usize> },
}

impl State {
    /// A client that waits for bytes lacks some: fewer have arrived than
    /// were asked for. Every operation starts in such a state and every
    /// frame leaves the client in one.
    pub open spec fn lacks_bytes(self) -> bool {
        match self {
            State::Bytes { target, received } => received.len() < target,
            State::Regions { received, sizes } => received.len() < total(
                sizes,
                sizes.len() as int,
            ),
            _ => true,
        }
    }
}

enum Awaiting {
    Nothing,
    Version,
    Devices,
    Info,
    Listing,
    FileLength,
    Bytes(Reassembler),
    Regions(Reassembler, Vec<usize>),
}

/// The protocol's client: whether it traces, and what it is waiting for.
pub struct SyncClient {
    devel: bool,
    awaiting: Awaiting,
}

/// The line of the trace that names the command.
pub open spec fn trace_head() -> Seq<char> {
    "Send command : "@
}

/// The trace of a request: the command's name and the request's text, if
/// the client traces.
pub open spec fn trace_of(devel: bool, command: Command, text: Seq<char>) -> Seq<Seq<char>> {
    if devel {
        seq![trace_head() + command.name_spec(), text]
    } else {
        Seq::empty()
    }
}

/// The note on a frame that is not of the kind that was waited for.
pub open spec fn wrong_kind_note() -> Seq<char> {
    "Error getting a reply"@
}

/// The line of the trace that comes before a reply's text.
pub open spec fn reply_head() -> Seq<char> {
    "Reply:"@
}

/// What there is to note on a frame that arrives at a client in the given
/// state. A frame that is not of the kind that is waited for is noted: any
/// frame but a binary one while bytes are waited for, any frame but a text
/// while a reply is waited for. A client that traces also notes the text of
/// what it reads as a reply, which is empty for a frame that is no text.
pub open spec fn notes_of(devel: bool, state: State, frame: FrameView) -> Seq<Seq<char>> {
    match state {
        State::Idle => Seq::empty(),
        State::Bytes { .. } | State::Regions { .. } => if frame is Binary {
            Seq::empty()
        } else {
            seq![wrong_kind_note()]
        },
        _ => {
            let kind = if frame is Text {
                Seq::empty()
            } else {
                seq![wrong_kind_note()]
            };
            let text = match frame {
                FrameView::Text(text) => text,
                _ => Seq::empty(),
            };
            if devel {
                kind + seq![reply_head(), text]
            } else {
                kind
            }
        },
    }
}

/// What is sent for a command: one text frame with the request. No
/// result comes with it.
pub open spec fn command_sent(
    devel: bool,
    command: Command,
    space: Option<Space>,
    operands: Seq<Seq<char>>,
) -> TransmissionView {
    let text = query_text(request(command, space, operands));
    TransmissionView {
        frames: seq![FrameView::Text(text)],
        trace: trace_of(devel, command, text),
        result: None,
    }
}

/// What is sent for a read, with the result of the read where it has one
/// at once.
pub open spec fn read_sent(
    devel: bool,
    operands: Seq<Seq<char>>,
    result: Option<ResponseView>,
) -> TransmissionView {
    let text = query_text(request(Command::GetAddress, Some(Space::SNES), operands));
    TransmissionView {
        frames: seq![FrameView::Text(text)],
        trace: trace_of(devel, Command::GetAddress, text),
        result,
    }
}

/// How a read of `target` bytes starts: what the client waits for, and the
/// result where there is one at once. A read of no bytes is over before any
/// frame, with no bytes; any other waits for its bytes.
pub open spec fn bytes_start(target: usize) -> (State, Option<ResponseView>) {
    if target == 0 {
        (State::Idle, Some(ResponseView::Bytes(Seq::empty())))
    } else {
        (State::Bytes { target, received: Seq::empty() }, None)
    }
}

/// How a read of regions of the given sizes starts. Where the regions hold
/// no byte together, the read is over before any frame, with an empty
/// buffer for each region; any other waits for its bytes.
pub open spec fn regions_start(sizes: Seq<usize>) -> (State, Option<ResponseView>) {
    if total(sizes, sizes.len() as int) == 0 {
        (State::Idle, Some(ResponseView::Regions(regions_spec(Seq::empty(), sizes))))
    } else {
        (State::Regions { received: Seq::empty(), sizes }, None)
    }
}

/// The binary frames of an upload: one for each chunk of the payload.
pub open spec fn payload_frames(data: Seq<u8>) -> Seq<FrameView> {
    Seq::new(chunks_spec(data).len(), |i: int| FrameView::Binary(chunks_spec(data)[i]))
}

/// The operands of a read of several regions: for each region its address
/// and then its size, both in hexadecimal, in the order of the regions.
pub open spec fn region_operands(addresses: Seq<u32>, sizes: Seq<usize>) -> Seq<Seq<char>> {
    Seq::new(
        2 * addresses.len(),
        |i: int|
            if i % 2 == 0 {
                hex_digits(addresses[i / 2] as nat)
            } else {
                hex_digits(sizes[i / 2] as nat)
            },
    )
}

/// The addresses of a list of regions.
pub open spec fn addresses_of(pairs: Seq<(u32, usize)>) -> Seq<u32> {
    Seq::new(pairs.len(), |i: int| pairs[i].0)
}

/// The sizes of a list of regions.
pub open spec fn sizes_of(pairs: Seq<(u32, usize)>) -> Seq<usize> {
    Seq::new(pairs.len(), |i: int| pairs[i].1)
}

/// The results that a frame holds where a reply is expected: a frame that
/// is no text, or whose text is no reply, is malformed.
pub open spec fn reply_results(frame: FrameView) -> Result<Seq<Seq<char>>, Error> {
    match frame {
        FrameView::Text(text) => match results_of(text) {
            Some(results) => Ok(results),
            None => Err(Error::MalformedReply),
        },
        _ => Err(Error::MalformedReply),
    }
}

/// An operation ends, with its result or with an error.
pub open spec fn finish(result: Result<ResponseView, Error>) -> (State, StepView) {
    match result {
        Ok(response) => (State::Idle, StepView::Done(response)),
        Err(e) => (State::Idle, StepView::Failed(e)),
    }
}

/// What a reply means to the operation that waits for it.
pub open spec fn read_reply(state: State, results: Seq<Seq<char>>) -> (State, StepView) {
    match state {
        State::Version => finish(
            match version_spec(results) {
                Ok(version) => Ok(ResponseView::Version(version)),
                Err(e) => Err(e),
            },
        ),
        State::Devices => finish(Ok(ResponseView::Devices(results))),
        State::Info => finish(
            match infos_spec(results) {
                Ok(infos) => Ok(ResponseView::Info(infos)),
                Err(e) => Err(e),
            },
        ),
        State::Listing => finish(
            match listing_spec(results) {
                Ok(entries) => Ok(ResponseView::Listing(entries)),
                Err(e) => Err(e),
            },
        ),
        State::FileLength => match length_spec(results) {
            Ok(length) => match bytes_start(length) {
                (_, Some(response)) => finish(Ok(response)),
                (state, None) => (state, StepView::Pending),
            },
            Err(e) => finish(Err(e)),
        },
        _ => (state, StepView::Ignored),
    }
}

/// What a frame means to the client in a given state, and the state it
/// leaves the client in.
///
/// A client that waits for nothing drops the frame. One that waits for a
/// reply reads the frame as one; whatever comes of it, the operation is
/// over, but for `GetFile`, whose reply says how many bytes follow: with
/// a length of zero the operation is over as well, with no bytes, and with
/// any other length the client waits for the bytes. One that waits for
/// bytes adds a binary frame's bytes to those in hand and passes over any
/// other frame; it is done when it holds exactly what was asked for, and
/// has failed when it holds more.
pub open spec fn step(state: State, frame: FrameView) -> (State, StepView) {
    match state {
        State::Idle => (State::Idle, StepView::Ignored),
        State::Bytes { target, received } => {
            let next = absorb(received, frame);
            match status_of(next.len(), target as nat) {
                Status::Complete => finish(Ok(ResponseView::Bytes(next))),
                Status::Overrun => finish(Err(Error::Overrun)),
                Status::Pending => (State::Bytes { target, received: next }, StepView::Pending),
            }
        },
        State::Regions { received, sizes } => {
            let next = absorb(received, frame);
            match status_of(next.len(), total(sizes, sizes.len() as int)) {
                Status::Complete => finish(Ok(ResponseView::Regions(regions_spec(next, sizes)))),
                Status::Overrun => finish(Err(Error::Overrun)),
                Status::Pending => (State::Regions { received: next, sizes }, StepView::Pending),
            }
        },
        _ => match reply_results(frame) {
            Ok(results) => read_reply(state, results),
            Err(e) => finish(Err(e)),
        },
    }
}

impl Awaiting {
    /// A payload that is waited for lacks bytes, and one that holds regions
    /// is as long as the regions together.
    spec fn sound(self) -> bool {
        match self {
            Awaiting::Bytes(r) => r.received().len() < r.target(),
            Awaiting::Regions(r, sizes) => r.received().len() < r.target() && r.target() == total(
                sizes@,
                sizes.len() as int,
            ),
            _ => true,
        }
    }

    spec fn state(self) -> State {
        match self {
            Awaiting::Nothing => State::Idle,
            Awaiting::Version => State::Version,
            Awaiting::Devices => State::Devices,
            Awaiting::Info => State::Info,
            Awaiting::Listing => State::Listing,
            Awaiting::FileLength => State::FileLength,
            Awaiting::Bytes(r) => State::Bytes { target: r.target(), received: r.received() },
            Awaiting::Regions(r, sizes) => State::Regions { received: r.received(), sizes: sizes@ },
        }
    }
}

impl SyncClient {
    /// The client waits only for a payload that lacks bytes.
    #[verifier::type_invariant]
    spec fn waits_for_what_is_missing(&self) -> bool {
        self.awaiting.sound()
    }

    /// What the client is waiting for.
    pub closed spec fn state(&self) -> State {
        self.awaiting.state()
    }

    /// Whether the client traces what it sends.
    pub closed spec fn devel(&self) -> bool {
        self.devel
    }

    /// A client for the server at `endpoint` that does not trace, and the
    /// address of the socket to open for it. The client waits for nothing.
    pub fn connect(endpoint: &USB2SnesEndpoint) -> (r: (SyncClient, String))
        ensures
            r.0.state() == State::Idle,
            !r.0.devel(),
            r.1@ == url_of(endpoint.address@, endpoint.port),
    {
        (SyncClient { devel: false, awaiting: Awaiting::Nothing }, endpoint.url())
    }

    /// A client for the server at `endpoint` that traces what it sends, and
    /// the address of the socket to open for it.
    pub fn connect_with_devel(endpoint: &USB2SnesEndpoint) -> (r: (SyncClient, String))
        ensures
            r.0.state() == State::Idle,
            r.0.devel(),
            r.1@ == url_of(endpoint.address@, endpoint.port),
    {
        let (mut client, url) = SyncClient::connect(endpoint);
        client.devel = true;
        (client, url)
    }

    /// Whether no operation is in flight.
    pub fn is_idle(&self) -> (idle: bool)
        ensures
            idle == (self.state() == State::Idle),
            self.state().lacks_bytes(),
    {
        proof {
            use_type_invariant(self);
        }
        match self.awaiting {
            Awaiting::Nothing => true,
            _ => false,
        }
    }

    /// The request for `command` in `space` with the operands `args`, as
    /// the one frame to send. What the client waits for stays as it is.
    pub fn send_command_with_space(
        &self,
        command: Command,
        space: Option<Space>,
        args: Vec<String>,
    ) -> (out: Transmission)
        ensures
            out@ == command_sent(self.devel(), command, space, views(args@)),
    {
        let query = USB2SnesQuery::new(command, space, args);
        let text = query.encode();
        let mut trace: Vec<String> = Vec::new();
        if self.devel {
            let mut head = "Send command : ".to_owned();
            head.append(command.name());
            trace.push(head);
            trace.push(text.clone());
        }
        let mut frames: Vec<Frame> = Vec::new();
        frames.push(Frame::Text(text));
        let out = Transmission { frames, trace, result: None };
        assert(out@.frames =~= command_sent(self.devel(), command, space, views(args@)).frames);
        assert(out@.trace =~= command_sent(self.devel(), command, space, views(args@)).trace);
        out
    }

    /// The request for `command` in the space that goes with it.
    pub fn send_command(&self, command: Command, args: Vec<String>) -> (out: Transmission)
        ensures
            out@ == command_sent(self.devel(), command, command.space_spec(), views(args@)),
    {
        self.send_command_with_space(command, command.space(), args)
    }

    /// The results that a frame holds where a reply is expected.
    pub fn get_reply(&self, frame: &Frame) -> (r: Result<USB2SnesResult, Error>)
        ensures
            match r {
                Ok(reply) => reply_results(frame@) == Ok::<Seq<Seq<char>>, Error>(reply@),
                Err(e) => reply_results(frame@) == Err::<Seq<Seq<char>>, Error>(e),
            },
    {
        match frame {
            Frame::Text(text) => USB2SnesResult::decode(text.as_str()),
            _ => Err(Error::MalformedReply),
        }
    }

    /// The lines to log for a frame that has arrived, before it is handed
    /// to `receive`.
    pub fn notes(&self, frame: &Frame) -> (lines: Vec<String>)
        ensures
            views(lines@) == notes_of(self.devel(), self.state(), frame@),
    {
        let mut lines: Vec<String> = Vec::new();
        let waits_for_bytes = match self.awaiting {
            Awaiting::Nothing => {
                return lines;
            },
            Awaiting::Bytes(_) => true,
            Awaiting::Regions(_, _) => true,
            _ => false,
        };
        let expected = match frame {
            Frame::Binary(_) => waits_for_bytes,
            Frame::Text(_) => !waits_for_bytes,
            Frame::Other => false,
        };
        if !expected {
            lines.push("Error getting a reply".to_owned());
        }
        if self.devel && !waits_for_bytes {
            lines.push("Reply:".to_owned());
            match frame {
                Frame::Text(text) => {
                    lines.push(text.clone());
                },
                _ => {
                    lines.push(String::new());
                },
            }
        }
        lines
    }

    /// Starts an operation: the request for `command` in the space that
    /// goes with it, and what the client waits for from now on. An
    /// operation that was in flight is given up.
    fn begin(&mut self, awaiting: Awaiting, command: Command, args: Vec<String>) -> (out:
        Transmission)
        requires
            awaiting.sound(),
        ensures
            out@ == command_sent(old(self).devel(), command, command.space_spec(), views(args@)),
            final(self).state() == awaiting.state(),
            final(self).devel() == old(self).devel(),
    {
        self.awaiting = awaiting;
        self.send_command(command, args)
    }

    /// Gives the client a name by which the server knows it. No reply
    /// follows.
    pub fn set_name(&mut self, name: String) -> (out: Transmission)
        ensures
            out@ == command_sent(
                old(self).devel(),
                Command::Name,
                Command::Name.space_spec(),
                seq![name@],
            ),
            final(self).state() == State::Idle,
            final(self).devel() == old(self).devel(),
    {
        let ghost text = name@;
        let args = vec![name];
        assert(views(args@) =~= seq![text]);
        self.begin(Awaiting::Nothing, Command::Name, args)
    }

    /// Asks for the server's version.
    pub fn app_version(&mut self) -> (out: Transmission)
        ensures
            out@ == command_sent(
                old(self).devel(),
                Command::AppVersion,
                Command::AppVersion.space_spec(),
                Seq::empty(),
            ),
            final(self).state() == State::Version,
            final(self).devel() == old(self).devel(),
    {
        let args: Vec<String> = Vec::new();
        assert(views(args@) =~= Seq::<Seq<char>>::empty());
        self.begin(Awaiting::Version, Command::AppVersion, args)
    }

    /// Asks for the devices that the server knows.
    pub fn list_device(&mut self) -> (out: Transmission)
        ensures
            out@ == command_sent(
                old(self).devel(),
                Command::DeviceList,
                Command::DeviceList.space_spec(),
                Seq::empty(),
            ),
            final(self).state() == State::Devices,
            final(self).devel() == old(self).devel(),
    {
        let args: Vec<String> = Vec::new();
        assert(views(args@) =~= Seq::<Seq<char>>::empty());
        self.begin(Awaiting::Devices, Command::DeviceList, args)
    }

    /// Attaches the client to a device. No reply follows.
    pub fn attach(&mut self, device: &String) -> (out: Transmission)
        ensures
            out@ == command_sent(
                old(self).devel(),
                Command::Attach,
                Command::Attach.space_spec(),
                seq![device@],
            ),
            final(self).state() == State::Idle,
            final(self).devel() == old(self).devel(),
    {
        let args = vec![device.clone()];
        assert(views(args@) =~= seq![device@]);
        self.begin(Awaiting::Nothing, Command::Attach, args)
    }

    /// Asks the device what it is and what it runs.
    pub fn info(&mut self) -> (out: Transmission)
        ensures
            out@ == command_sent(
                old(self).devel(),
                Command::Info,
                Command::Info.space_spec(),
                Seq::empty(),
            ),
            final(self).state() == State::Info,
            final(self).devel() == old(self).devel(),
    {
        let args: Vec<String> = Vec::new();
        assert(views(args@) =~= Seq::<Seq<char>>::empty());
        self.begin(Awaiting::Info, Command::Info, args)
    }

    /// Resets the running game. No reply follows.
    pub fn reset(&mut self) -> (out: Transmission)
        ensures
            out@ == command_sent(
                old(self).devel(),
                Command::Reset,
                Command::Reset.space_spec(),
                Seq::empty(),
            ),
            final(self).state() == State::Idle,
            final(self).devel() == old(self).devel(),
    {
        let args: Vec<String> = Vec::new();
        assert(views(args@) =~= Seq::<Seq<char>>::empty());
        self.begin(Awaiting::Nothing, Command::Reset, args)
    }

    /// Returns the device to its menu. No reply follows.
    pub fn menu(&mut self) -> (out: Transmission)
        ensures
            out@ == command_sent(
                old(self).devel(),
                Command::Menu,
                Command::Menu.space_spec(),
                Seq::empty(),
            ),
            final(self).state() == State::Idle,
            final(self).devel() == old(self).devel(),
    {
        let args: Vec<String> = Vec::new();
        assert(views(args@) =~= Seq::<Seq<char>>::empty());
        self.begin(Awaiting::Nothing, Command::Menu, args)
    }

    /// Boots the file at the given path. No reply follows.
    pub fn boot(&mut self, toboot: &str) -> (out: Transmission)
        ensures
            out@ == command_sent(
                old(self).devel(),
                Command::Boot,
                Command::Boot.space_spec(),
                seq![toboot@],
            ),
            final(self).state() == State::Idle,
            final(self).devel() == old(self).devel(),
    {
        let args = vec![toboot.to_owned()];
        assert(views(args@) =~= seq![toboot@]);
        self.begin(Awaiting::Nothing, Command::Boot, args)
    }

    /// Asks for the entries of the directory at the given path.
    pub fn ls(&mut self, path: &String) -> (out: Transmission)
        ensures
            out@ == command_sent(
                old(self).devel(),
                Command::List,
                Command::List.space_spec(),
                seq![path@],
            ),
            final(self).state() == State::Listing,
            final(self).devel() == old(self).devel(),
    {
        let args = vec![path.clone()];
        assert(views(args@) =~= seq![path@]);
        self.begin(Awaiting::Listing, Command::List, args)
    }

    /// Uploads a file: the request, which gives the path and the length in
    /// hexadecimal, and then the content in frames of at most 1024 bytes.
    /// No reply follows.
    pub fn send_file(&mut self, path: &String, data: Vec<u8>) -> (out: Transmission)
        ensures
            out@.frames == command_sent(
                old(self).devel(),
                Command::PutFile,
                Command::PutFile.space_spec(),
                seq![path@, hex_digits(data.len() as nat)],
            ).frames + payload_frames(data@),
            out@.trace == command_sent(
                old(self).devel(),
                Command::PutFile,
                Command::PutFile.space_spec(),
                seq![path@, hex_digits(data.len() as nat)],
            ).trace,
            out@.result is None,
            final(self).state() == State::Idle,
            final(self).devel() == old(self).devel(),
    {
        let length = to_hex(data.len() as u64);
        let ghost operands = seq![path@, length@];
        let args = vec![path.clone(), length];
        assert(views(args@) =~= operands);
        let mut out = self.begin(Awaiting::Nothing, Command::PutFile, args);
        let ghost head = out@.frames;
        let ghost trace = out@.trace;
        let parts = chunks(&data);
        let mut i: usize = 0;
        while i < parts.len()
            invariant
                i <= parts.len(),
                payloads(parts@) == chunks_spec(data@),
                out@.trace == trace,
                out.result is None,
                out.frames.len() == head.len() + i,
                forall|k: int| 0 <= k < head.len() ==> (#[trigger] out.frames[k])@ == head[k],
                forall|k: int|
                    0 <= k < i ==> (#[trigger] out.frames[head.len() + k])@ == FrameView::Binary(
                        chunks_spec(data@)[k],
                    ),
            decreases parts.len() - i,
        {
            let part = slice_to_vec(parts[i].as_slice());
            out.frames.push(Frame::Binary(part));
            i = i + 1;
        }
        proof {
            let whole = head + payload_frames(data@);
            assert forall|k: int| 0 <= k < whole.len() implies out@.frames[k] == whole[k] by {
                if k >= head.len() {
                    assert(out.frames[head.len() + (k - head.len())]@ == FrameView::Binary(
                        chunks_spec(data@)[k - head.len()],
                    ));
                }
            }
        }
        out
    }

    /// Asks for the content of the file at the given path.
    pub fn get_file(&mut self, path: &str) -> (out: Transmission)
        ensures
            out@ == command_sent(
                old(self).devel(),
                Command::GetFile,
                Command::GetFile.space_spec(),
                seq![path@],
            ),
            final(self).state() == State::FileLength,
            final(self).devel() == old(self).devel(),
    {
        let args = vec![path.to_owned()];
        assert(views(args@) =~= seq![path@]);
        self.begin(Awaiting::FileLength, Command::GetFile, args)
    }

    /// Removes the file or directory at the given path. No reply follows.
    pub fn remove_path(&mut self, path: &str) -> (out: Transmission)
        ensures
            out@ == command_sent(
                old(self).devel(),
                Command::Remove,
                Command::Remove.space_spec(),
                seq![path@],
            ),
            final(self).state() == State::Idle,
            final(self).devel() == old(self).devel(),
    {
        let args = vec![path.to_owned()];
        assert(views(args@) =~= seq![path@]);
        self.begin(Awaiting::Nothing, Command::Remove, args)
    }

    /// Starts a read of `size` bytes: what to wait for, and the result
    /// where the read is over at once.
    fn await_bytes(size: usize) -> (start: (Awaiting, Option<Response>))
        ensures
            start.0.sound(),
            start.0.state() == bytes_start(size).0,
            match start.1 {
                Some(response) => bytes_start(size).1 == Some(response@),
                None => bytes_start(size).1 is None,
            },
    {
        if size == 0 {
            (Awaiting::Nothing, Some(Response::Bytes(Vec::new())))
        } else {
            (Awaiting::Bytes(Reassembler::new(size)), None)
        }
    }

    /// Sends the request of a read with the given operands and starts the
    /// read as `start` says.
    fn begin_read(&mut self, args: Vec<String>, start: (Awaiting, Option<Response>)) -> (out:
        Transmission)
        requires
            start.0.sound(),
        ensures
            out@ == read_sent(
                old(self).devel(),
                views(args@),
                match start.1 {
                    Some(response) => Some(response@),
                    None => None,
                },
            ),
            final(self).state() == start.0.state(),
            final(self).devel() == old(self).devel(),
    {
        let (awaiting, result) = start;
        self.awaiting = awaiting;
        let mut out = self.send_command_with_space(Command::GetAddress, Some(Space::SNES), args);
        out.result = result;
        out
    }

    /// Asks for `size` bytes of the device's memory from `address` on. A
    /// read of no bytes has its result at once and waits for no frame.
    pub fn get_address(&mut self, address: u32, size: usize) -> (out: Transmission)
        ensures
            out@ == read_sent(
                old(self).devel(),
                seq![hex_digits(address as nat), hex_digits(size as nat)],
                bytes_start(size).1,
            ),
            final(self).state() == bytes_start(size).0,
            final(self).devel() == old(self).devel(),
    {
        let first = to_hex(address as u64);
        let second = to_hex(size as u64);
        let ghost operands = seq![first@, second@];
        let args = vec![first, second];
        assert(views(args@) =~= operands);
        let start = Self::await_bytes(size);
        self.begin_read(args, start)
    }

    /// Whether there is a size for each address and the sizes of the
    /// regions fit a `usize` together: what a read of several regions asks
    /// of its arguments.
    pub fn regions_fit(addresses: &Vec<u32>, sizes: &Vec<usize>) -> (fit: bool)
        ensures
            fit == (addresses.len() <= sizes.len() && total(sizes@, addresses.len() as int)
                <= usize::MAX),
    {
        if addresses.len() > sizes.len() {
            return false;
        }
        let mut sum: usize = 0;
        let mut i: usize = 0;
        while i < addresses.len()
            invariant
                i <= addresses.len() <= sizes.len(),
                sum == total(sizes@, i as int),
            decreases addresses.len() - i,
        {
            if sizes[i] > usize::MAX - sum {
                proof {
                    lemma_total_grows(sizes@, i + 1, addresses.len() as int);
                }
                return false;
            }
            sum = sum + sizes[i];
            i = i + 1;
        }
        true
    }

    /// Whether the sizes of the regions fit a `usize` together.
    pub fn pairs_fit(pairs: &[(u32, usize)]) -> (fit: bool)
        ensures
            fit == (total(sizes_of(pairs@), pairs.len() as int) <= usize::MAX),
    {
        let ghost sizes = sizes_of(pairs@);
        let mut sum: usize = 0;
        let mut i: usize = 0;
        while i < pairs.len()
            invariant
                i <= pairs.len(),
                sizes == sizes_of(pairs@),
                sum == total(sizes, i as int),
            decreases pairs.len() - i,
        {
            let size = pairs[i].1;
            if size > usize::MAX - sum {
                proof {
                    lemma_total_grows(sizes, i + 1, pairs.len() as int);
                }
                return false;
            }
            sum = sum + size;
            i = i + 1;
        }
        true
    }

    /// The operands of a read of the regions given by the addresses and as
    /// many of the sizes, and the number of bytes that the regions hold
    /// together.
    fn region_request(addresses: &Vec<u32>, sizes: &Vec<usize>) -> (r: (Vec<String>, usize))
        requires
            addresses.len() <= sizes.len(),
            total(sizes@, addresses.len() as int) <= usize::MAX,
        ensures
            views(r.0@) == region_operands(addresses@, sizes@),
            r.1 == total(sizes@, addresses.len() as int),
    {
        let ghost operands = region_operands(addresses@, sizes@);
        let mut args: Vec<String> = Vec::new();
        let mut total_size: usize = 0;
        let mut i: usize = 0;
        while i < addresses.len()
            invariant
                i <= addresses.len() <= sizes.len(),
                total(sizes@, addresses.len() as int) <= usize::MAX,
                total_size == total(sizes@, i as int),
                operands == region_operands(addresses@, sizes@),
                args.len() == 2 * i,
                views(args@) =~= operands.take(2 * i),
            decreases addresses.len() - i,
        {
            let address = to_hex(addresses[i] as u64);
            let size = to_hex(sizes[i] as u64);
            proof {
                lemma_total_grows(sizes@, i + 1, addresses.len() as int);
                lemma_views_push(args@, address);
                lemma_views_push(args@.push(address), size);
            }
            args.push(address);
            args.push(size);
            total_size = total_size + sizes[i];
            i = i + 1;
        }
        (args, total_size)
    }

    /// Asks for several regions of the device's memory in one request, to
    /// be returned as one buffer: the region with index `i` starts at
    /// `addresses[i]` and holds `sizes[i]` bytes. There must be a size for
    /// each address, and the sizes together must fit a `usize`. A read of
    /// no bytes has its result at once and waits for no frame.
    pub fn get_multi_address_as_vec(&mut self, addresses: Vec<u32>, sizes: Vec<usize>) -> (out:
        Transmission)
        requires
            addresses.len() <= sizes.len(),
            total(sizes@, addresses.len() as int) <= usize::MAX,
        ensures
            out@ == read_sent(
                old(self).devel(),
                region_operands(addresses@, sizes@),
                bytes_start(total(sizes@, addresses.len() as int) as usize).1,
            ),
            final(self).state() == bytes_start(total(sizes@, addresses.len() as int) as usize).0,
            final(self).devel() == old(self).devel(),
    {
        let (args, total_size) = Self::region_request(&addresses, &sizes);
        let start = Self::await_bytes(total_size);
        self.begin_read(args, start)
    }

    /// Asks for several regions of the device's memory in one request, to
    /// be returned region by region: each pair gives a region's address and
    /// its size. The sizes together must fit a `usize`. A read of no bytes
    /// has its result at once, an empty buffer for each region, and waits
    /// for no frame.
    pub fn get_multi_address_from_pairs(&mut self, pairs: &[(u32, usize)]) -> (out: Transmission)
        requires
            total(sizes_of(pairs@), pairs.len() as int) <= usize::MAX,
        ensures
            out@ == read_sent(
                old(self).devel(),
                region_operands(addresses_of(pairs@), sizes_of(pairs@)),
                regions_start(sizes_of(pairs@)).1,
            ),
            final(self).state() == regions_start(sizes_of(pairs@)).0,
            final(self).devel() == old(self).devel(),
    {
        let mut addresses: Vec<u32> = Vec::new();
        let mut sizes: Vec<usize> = Vec::new();
        let mut i: usize = 0;
        while i < pairs.len()
            invariant
                i <= pairs.len(),
                addresses@ =~= addresses_of(pairs@).take(i as int),
                sizes@ =~= sizes_of(pairs@).take(i as int),
            decreases pairs.len() - i,
        {
            let (address, size) = pairs[i];
            addresses.push(address);
            sizes.push(size);
            i = i + 1;
        }
        assert(addresses@ =~= addresses_of(pairs@));
        assert(sizes@ =~= sizes_of(pairs@));
        let (args, total_size) = Self::region_request(&addresses, &sizes);
        let start = if total_size == 0 {
            let nothing: Vec<u8> = Vec::new();
            match split_regions(&nothing, &sizes) {
                Ok(parts) => (Awaiting::Nothing, Some(Response::Regions(parts))),
                Err(_) => (Awaiting::Nothing, None),
            }
        } else {
            (Awaiting::Regions(Reassembler::new(total_size), sizes), None)
        };
        self.begin_read(args, start)
    }

    /// What the reply in `frame` means to the operation that waits for it.
    fn take_reply(&mut self, awaiting: Awaiting, frame: &Frame) -> (taken: Step)
        requires
            old(self).state() == State::Idle,
            awaiting.state() != State::Idle,
            !(awaiting.state() is Bytes),
            !(awaiting.state() is Regions),
        ensures
            (final(self).state(), taken@) == step(awaiting.state(), frame@),
            final(self).devel() == old(self).devel(),
    {
        let results = match self.get_reply(frame) {
            Err(e) => {
                return Step::Failed(e);
            },
            Ok(reply) => reply.results,
        };
        match awaiting {
            Awaiting::Version => match version_of(&results) {
                Ok(version) => Step::Done(Response::Version(version)),
                Err(e) => Step::Failed(e),
            },
            Awaiting::Devices => Step::Done(Response::Devices(results)),
            Awaiting::Info => match infos_of(&results) {
                Ok(infos) => Step::Done(Response::Info(infos)),
                Err(e) => Step::Failed(e),
            },
            Awaiting::Listing => match listing_of(&results) {
                Ok(entries) => Step::Done(Response::Listing(entries)),
                Err(e) => Step::Failed(e),
            },
            Awaiting::FileLength => match length_of(&results) {
                Ok(length) => {
                    let (awaiting, result) = Self::await_bytes(length);
                    self.awaiting = awaiting;
                    match result {
                        Some(response) => Step::Done(response),
                        None => Step::Pending,
                    }
                },
                Err(e) => Step::Failed(e),
            },
            _ => Step::Ignored,
        }
    }

    /// Takes a frame that has arrived: says what it means to the operation
    /// in flight, and waits for what that operation needs next.
    pub fn receive(&mut self, frame: Frame) -> (taken: Step)
        ensures
            (final(self).state(), taken@) == step(old(self).state(), frame@),
            final(self).state().lacks_bytes(),
            final(self).devel() == old(self).devel(),
    {
        proof {
            use_type_invariant(&*self);
        }
        let mut awaiting = Awaiting::Nothing;
        core::mem::swap(&mut self.awaiting, &mut awaiting);
        match awaiting {
            Awaiting::Nothing => Step::Ignored,
            Awaiting::Bytes(mut payload) => match payload.accept(&frame) {
                Status::Complete => Step::Done(Response::Bytes(payload.into_bytes())),
                Status::Overrun => Step::Failed(Error::Overrun),
                Status::Pending => {
                    self.awaiting = Awaiting::Bytes(payload);
                    Step::Pending
                },
            },
            Awaiting::Regions(mut payload, sizes) => match payload.accept(&frame) {
                Status::Complete => {
                    let data = payload.into_bytes();
                    match split_regions(&data, &sizes) {
                        Ok(parts) => Step::Done(Response::Regions(parts)),
                        Err(e) => Step::Failed(e),
                    }
                },
                Status::Overrun => Step::Failed(Error::Overrun),
                Status::Pending => {
                    self.awaiting = Awaiting::Regions(payload, sizes);
                    Step::Pending
                },
            },
            waited => self.take_reply(waited, &frame),
        }
    }
}

} // verus!
