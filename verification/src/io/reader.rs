//! The frame reader: a state machine that turns what a byte source delivers
//! into packets.
//!
//! The reader does no input or output of its own. It names the next thing to
//! do as an [`Action`], and is told how that went as an [`Event`]. Whoever
//! owns the byte source and the output channel runs the loop between the two.
//!
//! A frame is read in two phases: the six header bytes, then as many bytes of
//! data field as the header announces. A source that ends exactly between two
//! frames ends the run cleanly; one that ends anywhere else has been cut, and
//! the run fails. A frame that does not decode, or a channel that has lost
//! its consumers, fails the run as well: the reader never skips ahead to look
//! for the next frame.

use crate::protocol::error::PacketError;
use crate::protocol::packet::{spec_from_buffers, spec_result_view, Packet, PacketView};
use crate::protocol::wire::{read_u16_be, spec_u16_from_be};
use vstd::prelude::*;
use vstd::slice::slice_to_vec;

verus! {

/// Size of the packet header. Fixed size: 6 bytes.
pub const HEADER_SIZE: usize = 6;

/// Max size of the data field, which varies with the header's data length.
pub const DATA_MAX_SIZE: usize = 65536;

/// Size of a buffer that holds any one frame: header and largest data field.
pub const BUFFER_SIZE: usize = HEADER_SIZE + DATA_MAX_SIZE;

/// Number of packets that the output channel holds for a slow consumer.
pub const CHANNEL_SIZE: usize = 1024;

/// Why a run of the reader failed.
#[derive(Clone, Copy, Debug, PartialEq, Eq, Structural)]
pub enum ReaderError {
    /// The source ended inside a frame.
    TruncatedFrame,
    /// The source reported a failure other than its end.
    ReadFailed,
    /// A complete frame did not decode.
    Decode(PacketError),
    /// The output channel has no consumer left.
    ChannelClosed,
    /// The reader was told of something it had not asked for.
    UnexpectedEvent,
}

/// Where the reader stands.
#[derive(Clone, Copy, Debug, PartialEq, Eq, Structural)]
pub enum ReaderState {
    /// Waiting for the six bytes of the next header.
    AwaitingHeader,
    /// Holding a header, waiting for the data field it announces.
    AwaitingBody,
    /// Holding a decoded frame, waiting for its packet to be published.
    Emit,
    /// The run is over, cleanly or not.
    Stopped,
}

/// What the reader is told.
#[derive(Clone, Debug, PartialEq, Eq)]
pub enum Event {
    /// The bytes that the source delivered for the last read: all that were
    /// asked for, or fewer if the source ended first.
    Read(Vec<u8>),
    /// The source failed.
    ReadFailed,
    /// The packet was handed to the channel.
    Published,
    /// The channel refused the packet: no consumer is left.
    ChannelClosed,
}

/// What the reader asks for.
#[derive(Clone, Debug, PartialEq, Eq)]
pub enum Action {
    /// Read exactly this many bytes from the source, or up to its end.
    Read(usize),
    /// Hand this packet to the channel.
    Publish(Packet),
    /// The source is exhausted at a frame boundary: end the run.
    Stop,
    /// End the run with this error.
    Fail(ReaderError),
}

/// An event, with bytes as a sequence.
pub ghost enum EventView {
    Read(Seq<u8>),
    ReadFailed,
    Published,
    ChannelClosed,
}

/// An action, with the packet as its view.
pub ghost enum ActionView {
    Read(usize),
    Publish(PacketView),
    Stop,
    Fail(ReaderError),
}

impl View for Event {
    type V = EventView;

    open spec fn view(&self) -> EventView {
        match self {
            Event::Read(bytes) => EventView::Read(bytes@),
            Event::ReadFailed => EventView::ReadFailed,
            Event::Published => EventView::Published,
            Event::ChannelClosed => EventView::ChannelClosed,
        }
    }
}

impl View for Action {
    type V = ActionView;

    open spec fn view(&self) -> ActionView {
        match self {
            Action::Read(n) => ActionView::Read(*n),
            Action::Publish(packet) => ActionView::Publish(packet@),
            Action::Stop => ActionView::Stop,
            Action::Fail(e) => ActionView::Fail(*e),
        }
    }
}

/// The frame reader.
pub struct Reader {
    state: ReaderState,
    header_buf: Vec<u8>,
    data_buf: Vec<u8>,
}

/// What a reader holds: its state, and the header and data field it read last.
pub ghost struct ReaderView {
    pub state: ReaderState,
    pub header: Seq<u8>,
    pub data: Seq<u8>,
}

impl View for Reader {
    type V = ReaderView;

    closed spec fn view(&self) -> ReaderView {
        ReaderView { state: self.state, header: self.header_buf@, data: self.data_buf@ }
    }
}

/// Number of bytes of the data field that follows a header: the big-endian
/// value of the header's last two bytes, plus one.
pub open spec fn spec_data_len(header: Seq<u8>) -> int
    recommends
        header.len() >= 6,
{
    spec_u16_from_be(header[4], header[5]) + 1
}

impl ReaderView {
    /// This reader, stopped.
    pub open spec fn spec_stopped(self) -> ReaderView {
        ReaderView { state: ReaderState::Stopped, ..self }
    }

    /// A stopped reader and the failure that stopped it.
    pub open spec fn spec_fail(self, error: ReaderError) -> (ReaderView, ActionView) {
        (self.spec_stopped(), ActionView::Fail(error))
    }

    /// The reader's next state and action when it awaits a header.
    pub open spec fn spec_on_header(self, event: EventView) -> (ReaderView, ActionView) {
        match event {
            EventView::Read(bytes) => {
                if bytes.len() == 6 {
                    (
                        ReaderView { state: ReaderState::AwaitingBody, header: bytes, ..self },
                        ActionView::Read(spec_data_len(bytes) as usize),
                    )
                } else if bytes.len() == 0 {
                    (self.spec_stopped(), ActionView::Stop)
                } else if bytes.len() < 6 {
                    self.spec_fail(ReaderError::TruncatedFrame)
                } else {
                    self.spec_fail(ReaderError::UnexpectedEvent)
                }
            },
            EventView::ReadFailed => self.spec_fail(ReaderError::ReadFailed),
            _ => self.spec_fail(ReaderError::UnexpectedEvent),
        }
    }

    /// The reader's next state and action when it awaits a data field.
    pub open spec fn spec_on_body(self, event: EventView) -> (ReaderView, ActionView) {
        match event {
            EventView::Read(bytes) => {
                if bytes.len() == spec_data_len(self.header) {
                    match spec_from_buffers(self.header, bytes) {
                        Ok(packet) => (
                            ReaderView { state: ReaderState::Emit, data: bytes, ..self },
                            ActionView::Publish(packet),
                        ),
                        Err(e) => (
                            ReaderView { state: ReaderState::Stopped, data: bytes, ..self },
                            ActionView::Fail(ReaderError::Decode(e)),
                        ),
                    }
                } else if bytes.len() < spec_data_len(self.header) {
                    self.spec_fail(ReaderError::TruncatedFrame)
                } else {
                    self.spec_fail(ReaderError::UnexpectedEvent)
                }
            },
            EventView::ReadFailed => self.spec_fail(ReaderError::ReadFailed),
            _ => self.spec_fail(ReaderError::UnexpectedEvent),
        }
    }

    /// The reader's next state and action when a packet is being published.
    pub open spec fn spec_on_emit(self, event: EventView) -> (ReaderView, ActionView) {
        match event {
            EventView::Published => (
                ReaderView { state: ReaderState::AwaitingHeader, ..self },
                ActionView::Read(HEADER_SIZE),
            ),
            EventView::ChannelClosed => self.spec_fail(ReaderError::ChannelClosed),
            _ => self.spec_fail(ReaderError::UnexpectedEvent),
        }
    }

    /// The reader's next state and action, from its state and an event.
    pub open spec fn spec_step(self, event: EventView) -> (ReaderView, ActionView) {
        match self.state {
            ReaderState::AwaitingHeader => self.spec_on_header(event),
            ReaderState::AwaitingBody => self.spec_on_body(event),
            ReaderState::Emit => self.spec_on_emit(event),
            ReaderState::Stopped => (self, ActionView::Stop),
        }
    }
}

/// What a run of the reader comes to: the packets published, in order, and
/// how the run ended.
pub ghost struct RunOutcome {
    pub packets: Seq<PacketView>,
    pub result: Result<(), ReaderError>,
}

impl RunOutcome {
    /// A run that publishes nothing and ends with `result`.
    pub open spec fn spec_ended(result: Result<(), ReaderError>) -> RunOutcome {
        RunOutcome { packets: Seq::empty(), result }
    }

    /// This run, with `packet` published before it.
    pub open spec fn spec_after(self, packet: PacketView) -> RunOutcome {
        RunOutcome { packets: seq![packet] + self.packets, result: self.result }
    }
}

/// What a run over the source `src` comes to.
///
/// An empty source ends the run cleanly. Otherwise the source must hold six
/// header bytes and the data field that they announce, or the frame is
/// truncated; the frame must decode; and the run goes on with what follows
/// the frame.
pub open spec fn spec_run(src: Seq<u8>) -> RunOutcome
    decreases src.len(),
{
    if src.len() == 0 {
        RunOutcome::spec_ended(Ok(()))
    } else if src.len() < 6 {
        RunOutcome::spec_ended(Err(ReaderError::TruncatedFrame))
    } else {
        let header = src.subrange(0, 6);
        let end = 6 + spec_data_len(header);
        if src.len() < end {
            RunOutcome::spec_ended(Err(ReaderError::TruncatedFrame))
        } else {
            match spec_from_buffers(header, src.subrange(6, end)) {
                Err(e) => RunOutcome::spec_ended(Err(ReaderError::Decode(e))),
                Ok(packet) => spec_run(src.subrange(end, src.len() as int)).spec_after(packet),
            }
        }
    }
}

/// The views of a sequence of packets.
pub open spec fn spec_packet_views(packets: Seq<Packet>) -> Seq<PacketView> {
    Seq::new(packets.len(), |i: int| packets[i]@)
}

/// Whether `action` is what a reader in this state has asked for.
spec fn spec_asked(reader: ReaderView, action: ActionView) -> bool {
    match action {
        ActionView::Read(n) => match reader.state {
            ReaderState::AwaitingHeader => n == 6,
            ReaderState::AwaitingBody => reader.header.len() == 6 && n == spec_data_len(
                reader.header,
            ),
            _ => false,
        },
        ActionView::Publish(_) => reader.state is Emit,
        _ => reader.state is Stopped,
    }
}

/// What is left of a run when the reader has asked for `action` and `rest` of
/// the source has not been read.
#[verifier::opaque]
spec fn spec_pending(reader: ReaderView, action: ActionView, rest: Seq<u8>) -> RunOutcome {
    match action {
        ActionView::Read(_) => if reader.state is AwaitingBody {
            spec_run(reader.header + rest)
        } else {
            spec_run(rest)
        },
        ActionView::Publish(packet) => spec_run(rest).spec_after(packet),
        ActionView::Stop => RunOutcome::spec_ended(Ok(())),
        ActionView::Fail(e) => RunOutcome::spec_ended(Err(e)),
    }
}

/// How many more actions may follow `action` before the source is read.
spec fn spec_rank(action: ActionView) -> nat {
    match action {
        ActionView::Publish(_) => 2,
        ActionView::Read(_) => 1,
        _ => 0,
    }
}

/// The bytes that a read of `n` bytes delivers from what is left of a source.
spec fn spec_chunk(rest: Seq<u8>, n: usize) -> Seq<u8> {
    if n <= rest.len() {
        rest.subrange(0, n as int)
    } else {
        rest
    }
}

/// A read that the reader asked for leaves the same run pending.
proof fn lemma_read_keeps_pending(reader: ReaderView, n: usize, rest: Seq<u8>)
    requires
        spec_asked(reader, ActionView::Read(n)),
    ensures
        ({
            let chunk = spec_chunk(rest, n);
            let next = reader.spec_step(EventView::Read(chunk));
            &&& spec_asked(next.0, next.1)
            &&& spec_pending(next.0, next.1, rest.skip(chunk.len() as int)) == spec_pending(
                reader,
                ActionView::Read(n),
                rest,
            )
            &&& chunk.len() == 0 ==> spec_rank(next.1) == 0
        }),
{
    reveal(spec_pending);
    let chunk = spec_chunk(rest, n);
    let next = reader.spec_step(EventView::Read(chunk));
    let after = rest.skip(chunk.len() as int);
    if reader.state is AwaitingHeader {
        if rest.len() >= 6 {
            assert(chunk + after =~= rest);
        } else {
            assert(chunk =~= rest);
        }
    } else {
        let src = reader.header + rest;
        assert(src.subrange(0, 6) =~= reader.header);
        if rest.len() >= n {
            assert(src.subrange(6, 6 + n) =~= chunk);
            assert(src.subrange(6 + n, src.len() as int) =~= after);
        }
    }
}

/// Once the packet that the reader asked to publish is published, the run
/// that was pending is that packet and then the run now pending.
proof fn lemma_publish_keeps_pending(
    reader: ReaderView,
    packet: PacketView,
    rest: Seq<u8>,
    published: Seq<PacketView>,
)
    requires
        spec_asked(reader, ActionView::Publish(packet)),
    ensures
        ({
            let next = reader.spec_step(EventView::Published);
            let pending = spec_pending(reader, ActionView::Publish(packet), rest);
            let left = spec_pending(next.0, next.1, rest);
            &&& spec_asked(next.0, next.1)
            &&& spec_rank(next.1) == 1
            &&& left.result == pending.result
            &&& published.push(packet) + left.packets == published + pending.packets
        }),
{
    reveal(spec_pending);
    let next = reader.spec_step(EventView::Published);
    let pending = spec_pending(reader, ActionView::Publish(packet), rest);
    let left = spec_pending(next.0, next.1, rest);
    assert(published.push(packet) + left.packets =~= published + pending.packets);
}

/// When the reader has stopped or failed, nothing is pending but the end.
proof fn lemma_pending_ended(reader: ReaderView, rest: Seq<u8>, published: Seq<PacketView>)
    ensures
        spec_pending(reader, ActionView::Stop, rest).result == Ok::<(), ReaderError>(()),
        published + spec_pending(reader, ActionView::Stop, rest).packets == published,
        forall|e: ReaderError|
            #![trigger spec_pending(reader, ActionView::Fail(e), rest)]
            {
                &&& spec_pending(reader, ActionView::Fail(e), rest).result == Err::<
                    (),
                    ReaderError,
                >(e)
                &&& published + spec_pending(reader, ActionView::Fail(e), rest).packets
                    == published
            },
{
    reveal(spec_pending);
    assert(published + Seq::<PacketView>::empty() =~= published);
}

/// At the start of a run, the whole run is pending.
proof fn lemma_pending_at_start(reader: ReaderView, src: Seq<u8>)
    requires
        reader.state is AwaitingHeader,
    ensures
        spec_pending(reader, ActionView::Read(HEADER_SIZE), src.skip(0)) == spec_run(src),
{
    reveal(spec_pending);
    assert(src.skip(0) =~= src);
}

/// Pushing a packet onto a vector appends its view to the vector's views.
proof fn lemma_views_push(packets: Seq<Packet>, packet: Packet)
    ensures
        spec_packet_views(packets.push(packet)) == spec_packet_views(packets).push(packet@),
{
    assert(spec_packet_views(packets.push(packet)) =~= spec_packet_views(packets).push(packet@));
}

impl Reader {
    #[verifier::type_invariant]
    spec fn inv(&self) -> bool {
        self.state is AwaitingBody ==> self.header_buf@.len() == 6
    }

    /// A reader that awaits its first header.
    pub fn new() -> (reader: Reader)
        ensures
            reader@.state == ReaderState::AwaitingHeader,
            reader@.header.len() == 0,
            reader@.data.len() == 0,
    {
        Reader {
            state: ReaderState::AwaitingHeader,
            header_buf: Vec::with_capacity(HEADER_SIZE),
            data_buf: Vec::new(),
        }
    }

    /// Begins a run: whatever state the reader was in, it now awaits a
    /// header, and asks for the header's bytes.
    pub fn start(&mut self) -> (action: Action)
        ensures
            final(self)@ == (ReaderView { state: ReaderState::AwaitingHeader, ..old(self)@ }),
            action@ == ActionView::Read(HEADER_SIZE),
    {
        self.state = ReaderState::AwaitingHeader;
        Action::Read(HEADER_SIZE)
    }

    /// Where the reader stands.
    pub fn state(&self) -> (state: ReaderState)
        ensures
            state == self@.state,
    {
        self.state
    }

    /// Size of the data field that the held header announces: its data
    /// length, plus one.
    fn parse_pkt_length(&self) -> (len: usize)
        requires
            self.header_buf@.len() >= 6,
        ensures
            len == spec_data_len(self.header_buf@),
    {
        let data_length: u16 = read_u16_be(&self.header_buf.as_slice()[4..6]);
        data_length as usize + 1
    }

    /// Decodes the frame held in the two buffers.
    fn parse(&self) -> (res: Result<Packet, PacketError>)
        ensures
            spec_result_view(res) == spec_from_buffers(
                self.header_buf@,
                self.data_buf@,
            ),
    {
        Packet::from_buffers(self.header_buf.as_slice(), self.data_buf.as_slice())
    }

    fn fail(&mut self, error: ReaderError) -> (action: Action)
        ensures
            (final(self)@, action@) == old(self)@.spec_fail(error),
    {
        self.state = ReaderState::Stopped;
        Action::Fail(error)
    }

    fn on_header(&mut self, event: Event) -> (action: Action)
        requires
            old(self).state is AwaitingHeader,
        ensures
            (final(self)@, action@) == old(self)@.spec_on_header(event@),
    {
        match event {
            Event::Read(bytes) => {
                if bytes.len() == HEADER_SIZE {
                    self.header_buf = bytes;
                    self.state = ReaderState::AwaitingBody;
                    Action::Read(self.parse_pkt_length())
                } else if bytes.len() == 0 {
                    self.state = ReaderState::Stopped;
                    Action::Stop
                } else if bytes.len() < HEADER_SIZE {
                    self.fail(ReaderError::TruncatedFrame)
                } else {
                    self.fail(ReaderError::UnexpectedEvent)
                }
            },
            Event::ReadFailed => self.fail(ReaderError::ReadFailed),
            _ => self.fail(ReaderError::UnexpectedEvent),
        }
    }

    fn on_body(&mut self, event: Event) -> (action: Action)
        requires
            old(self).state is AwaitingBody,
        ensures
            (final(self)@, action@) == old(self)@.spec_on_body(event@),
    {
        proof {
            use_type_invariant(&*self);
        }
        match event {
            Event::Read(bytes) => {
                let wanted: usize = self.parse_pkt_length();
                if bytes.len() == wanted {
                    self.state = ReaderState::Emit;
                    self.data_buf = bytes;
                    match self.parse() {
                        Ok(packet) => Action::Publish(packet),
                        Err(e) => {
                            self.state = ReaderState::Stopped;
                            Action::Fail(ReaderError::Decode(e))
                        },
                    }
                } else if bytes.len() < wanted {
                    self.fail(ReaderError::TruncatedFrame)
                } else {
                    self.fail(ReaderError::UnexpectedEvent)
                }
            },
            Event::ReadFailed => self.fail(ReaderError::ReadFailed),
            _ => self.fail(ReaderError::UnexpectedEvent),
        }
    }

    fn on_emit(&mut self, event: Event) -> (action: Action)
        requires
            old(self).state is Emit,
        ensures
            (final(self)@, action@) == old(self)@.spec_on_emit(event@),
    {
        match event {
            Event::Published => {
                self.state = ReaderState::AwaitingHeader;
                Action::Read(HEADER_SIZE)
            },
            Event::ChannelClosed => self.fail(ReaderError::ChannelClosed),
            _ => self.fail(ReaderError::UnexpectedEvent),
        }
    }

    /// Takes the reader from its state to the next on `event`, and returns
    /// what to do next.
    pub fn step(&mut self, event: Event) -> (action: Action)
        ensures
            (final(self)@, action@) == old(self)@.spec_step(event@),
            action@ matches ActionView::Read(len) ==> 1 <= len <= BUFFER_SIZE,
    {
        proof {
            use_type_invariant(&*self);
        }
        match self.state {
            ReaderState::AwaitingHeader => self.on_header(event),
            ReaderState::AwaitingBody => self.on_body(event),
            ReaderState::Emit => self.on_emit(event),
            ReaderState::Stopped => Action::Stop,
        }
    }

    /// Runs the reader over the in-memory source `src`, from its start, and
    /// pushes each packet onto `out` as it is decoded.
    ///
    /// Returns `Ok` if the source ends exactly after a frame, or is empty.
    /// Packets pushed before a failure stay in `out`.
    pub fn run(&mut self, src: &[u8], out: &mut Vec<Packet>) -> (res: Result<(), ReaderError>)
        ensures
            spec_packet_views(final(out)@) == spec_packet_views(old(out)@) + spec_run(
                src@,
            ).packets,
            res == spec_run(src@).result,
            final(self)@.state == ReaderState::Stopped,
    {
        let mut action: Action = self.start();
        let mut pos: usize = 0;
        let ghost before: Seq<PacketView> = spec_packet_views(out@);
        let ghost whole: RunOutcome = spec_run(src@);
        proof {
            lemma_pending_at_start(self@, src@);
        }
        loop
            invariant
                pos <= src@.len(),
                before == spec_packet_views(old(out)@),
                whole == spec_run(src@),
                spec_asked(self@, action@),
                spec_packet_views(out@) + spec_pending(
                    self@,
                    action@,
                    src@.skip(pos as int),
                ).packets == before + whole.packets,
                spec_pending(self@, action@, src@.skip(pos as int)).result == whole.result,
            decreases src@.len() - pos, spec_rank(action@),
        {
            let ghost rest: Seq<u8> = src@.skip(pos as int);
            proof {
                lemma_pending_ended(self@, rest, spec_packet_views(out@));
            }
            let event: Event = match action {
                Action::Read(n) => {
                    let avail: usize = src.len() - pos;
                    let take: usize = if n <= avail {
                        n
                    } else {
                        avail
                    };
                    let chunk: Vec<u8> = slice_to_vec(&src[pos..pos + take]);
                    proof {
                        assert(chunk@ =~= spec_chunk(rest, n));
                        assert(src@.skip(pos + take) =~= rest.skip(take as int));
                        lemma_read_keeps_pending(self@, n, rest);
                    }
                    pos = pos + take;
                    Event::Read(chunk)
                },
                Action::Publish(packet) => {
                    proof {
                        lemma_views_push(out@, packet);
                        lemma_publish_keeps_pending(
                            self@,
                            packet@,
                            rest,
                            spec_packet_views(out@),
                        );
                    }
                    out.push(packet);
                    Event::Published
                },
                Action::Stop => {
                    return Ok(());
                },
                Action::Fail(e) => {
                    return Err(e);
                },
            };
            action = self.step(event);
        }
    }
}

} // verus!
