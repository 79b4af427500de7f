//! The two sides of the serial link, each as a machine that is told what
//! happened on the link and says what to do next. The caller owns the port:
//! it opens, reads, writes and waits.

use vstd::prelude::*;
use vstd::string::StringExecFns;
use crate::bus::{Bus, lemma_send_all_keeps_capacity};
use crate::decoder::{Decoder, decoded, frames_in, left_over, outcomes_view};
use crate::message::{Command, CommandView, Message, MessageView};
use crate::package::{DecodeError, Package, PackageView, Point, log_line, outcome_view, points_view};
use crate::telemetry::{DataPointView, Frame, FrameView, stamped};
use crate::text::{join2, join3};

verus! {

/// Whether the link is up.
#[derive(Clone, Copy, Debug, PartialEq, Eq, Structural)]
pub enum LinkState {
    /// The port is not open.
    Disconnected,
    /// The port is open and read from.
    Streaming,
}

/// What happened on the receiving side of the link.
#[derive(Debug)]
pub enum LinkEvent {
    /// The port could not be opened, for this reason.
    OpenFailed(String),
    /// The port is open.
    Opened,
    /// A read returned these bytes. A read that returned none means that the
    /// link is down.
    Read(Vec<u8>),
    /// A read failed.
    Closed,
}

/// A [`LinkEvent`] as contracts see it.
pub enum LinkEventView {
    OpenFailed(Seq<char>),
    Opened,
    Read(Seq<u8>),
    Closed,
}

impl View for LinkEvent {
    type V = LinkEventView;

    open spec fn view(&self) -> LinkEventView {
        match self {
            LinkEvent::OpenFailed(reason) => LinkEventView::OpenFailed(reason@),
            LinkEvent::Opened => LinkEventView::Opened,
            LinkEvent::Read(bytes) => LinkEventView::Read(bytes@),
            LinkEvent::Closed => LinkEventView::Closed,
        }
    }
}

/// What the caller does next on the receiving side.
#[derive(Clone, Copy, Debug, PartialEq, Eq, Structural)]
pub enum LinkAction {
    /// Open the port.
    Open,
    /// Wait for the backoff interval, then open the port.
    Backoff,
    /// Read from the port.
    Read,
}

/// The receiving side of the link: its state and its decode cursor.
pub struct Session {
    state: LinkState,
    decoder: Decoder,
}

/// A [`Session`] as contracts see it.
pub struct SessionView {
    pub state: LinkState,
    pub pending: Seq<u8>,
}

impl View for Session {
    type V = SessionView;

    closed spec fn view(&self) -> SessionView {
        SessionView { state: self.state, pending: self.decoder@ }
    }
}

/// What one step of the receiving side came to.
#[derive(Clone, Copy, Debug, PartialEq, Eq, Structural)]
pub struct ListenReport {
    /// What the caller does next.
    pub next: LinkAction,
    /// How many of the messages that were sent some subscriber of the bus
    /// had no room for.
    pub lossy: usize,
}

/// The note that the receiving side leaves when the port cannot be opened.
pub open spec fn open_failed_note(reason: Seq<char>) -> Seq<char> {
    "[WARN] TTY disconnected, waiting for connection... ("@ + reason + ")"@
}

/// The note that the receiving side leaves when the link goes down.
pub open spec fn closed_note() -> Seq<char> {
    "[WARN] TTY closed, reconnecting"@
}

/// The note that the receiving side leaves when a frame is discarded.
pub open spec fn discarded_note(error: DecodeError) -> Seq<char> {
    "[WARN] Got an error reading serial device: "@ + error.description()
}

/// The time that the caller waits before it opens the port again, in
/// seconds.
pub const BACKOFF_SECONDS: u64 = 1;

/// The most bytes that the caller asks of the port in one read.
pub const READ_SIZE: usize = 2048;

/// The note that the caller leaves for each message that a subscriber of the
/// bus had no room for.
pub const SATURATED_NOTE: &'static str = "[WARN] Message bus saturated, losing data";

/// The frame of the channels `points`, decoded at `now`.
pub open spec fn frame_of(points: Seq<Point>, now: time::OffsetDateTime) -> FrameView {
    FrameView {
        timestamp: now,
        data_points: Seq::new(
            points.len(),
            |i: int| DataPointView { name: points[i].0, timestamp: now, value: points[i].1 },
        ),
    }
}

/// The message that the bus gets for one decoded frame: the telemetry frame
/// stamped `now`, the device's log line, or a note that a frame was
/// discarded.
pub open spec fn message_of(
    outcome: Result<PackageView, DecodeError>,
    now: time::OffsetDateTime,
) -> MessageView {
    match outcome {
        Ok(PackageView::Telemetry(points)) => MessageView::Telemetry(frame_of(points, now)),
        Ok(PackageView::Log(severity, text)) => MessageView::Log(log_line(severity, text)),
        Err(error) => MessageView::Log(discarded_note(error)),
    }
}

/// The messages for the decoded frames, in order.
pub open spec fn messages_of(
    outcomes: Seq<Result<PackageView, DecodeError>>,
    now: time::OffsetDateTime,
) -> Seq<MessageView> {
    Seq::new(outcomes.len(), |i: int| message_of(outcomes[i], now))
}

impl SessionView {
    /// Whether `event` is a read that brought bytes while the link is up.
    pub open spec fn streams(self, event: LinkEventView) -> bool {
        match event {
            LinkEventView::Read(bytes) => self.state == LinkState::Streaming && bytes.len() > 0,
            _ => false,
        }
    }

    /// The session after `event`. Bytes read while the link is up go through
    /// the decode cursor; every other event leaves the cursor empty, and only
    /// the opening of the port brings the link up.
    pub open spec fn after(self, event: LinkEventView) -> SessionView {
        match event {
            LinkEventView::Opened => SessionView {
                state: LinkState::Streaming,
                pending: Seq::empty(),
            },
            LinkEventView::Read(bytes) => if self.streams(event) {
                SessionView { state: LinkState::Streaming, pending: left_over(self.pending, bytes) }
            } else {
                SessionView { state: LinkState::Disconnected, pending: Seq::empty() }
            },
            _ => SessionView { state: LinkState::Disconnected, pending: Seq::empty() },
        }
    }

    /// What the caller does next: it reads on while the link is up, waits
    /// before it opens the port again where opening failed, and opens it at
    /// once where the link went down.
    pub open spec fn next(self, event: LinkEventView) -> LinkAction {
        match event {
            LinkEventView::OpenFailed(_) => LinkAction::Backoff,
            LinkEventView::Opened => LinkAction::Read,
            LinkEventView::Read(_) => if self.streams(event) {
                LinkAction::Read
            } else {
                LinkAction::Open
            },
            LinkEventView::Closed => LinkAction::Open,
        }
    }

    /// What `event` sends on the bus: a message for each frame that the bytes
    /// read complete, or a note that the link is down.
    pub open spec fn published(self, event: LinkEventView, now: time::OffsetDateTime) -> Seq<
        MessageView,
    > {
        match event {
            LinkEventView::OpenFailed(reason) => seq![MessageView::Log(open_failed_note(reason))],
            LinkEventView::Opened => Seq::empty(),
            LinkEventView::Read(bytes) => if self.streams(event) {
                messages_of(decoded(frames_in(self.pending, bytes)), now)
            } else if self.state == LinkState::Streaming {
                seq![MessageView::Log(closed_note())]
            } else {
                Seq::empty()
            },
            LinkEventView::Closed => if self.state == LinkState::Streaming {
                seq![MessageView::Log(closed_note())]
            } else {
                Seq::empty()
            },
        }
    }
}

impl Session {
    /// A session whose port is not open yet.
    pub fn new() -> (session: Session)
        ensures
            session@ == (SessionView { state: LinkState::Disconnected, pending: Seq::empty() }),
    {
        Session { state: LinkState::Disconnected, decoder: Decoder::new() }
    }

    /// Whether the link is up.
    pub fn state(&self) -> (state: LinkState)
        ensures
            state == self@.state,
    {
        self.state
    }
}

/// The message that the bus gets for one decoded frame.
pub fn to_message(outcome: &Result<Package, DecodeError>, now: time::OffsetDateTime) -> (message:
    Message)
    ensures
        message@ == message_of(outcome_view(*outcome), now),
{
    match outcome {
        Ok(Package::Telemetry(points)) => {
            let frame = Frame::new(now, points.as_slice());
            assert(frame@.data_points =~= frame_of(points_view(points@), now).data_points);
            Message::Telemetry(frame)
        },
        Ok(Package::Log(record)) => Message::Log(record.line()),
        Err(error) => {
            let reason = error.describe();
            Message::Log(join2("[WARN] Got an error reading serial device: ", reason.as_str()))
        },
    }
}

/// Sends one note on the bus.
fn send_note(bus: &mut Bus, note: String) -> (lossy: usize)
    ensures
        final(bus)@ == old(bus)@.send_all(seq![MessageView::Log(note@)]),
        lossy == old(bus)@.lossy_sends(seq![MessageView::Log(note@)]),
        old(bus)@.wf() ==> final(bus)@.wf(),
{
    let message = Message::Log(note);
    let ghost one = seq![message@];
    proof {
        assert(one.drop_last() =~= Seq::<MessageView>::empty());
        assert(old(bus)@.send_all(one.drop_last()) == old(bus)@);
        assert(old(bus)@.lossy_sends(one.drop_last()) == 0);
    }
    let report = bus.send(&message);
    if report.dropped > 0 {
        1
    } else {
        0
    }
}

/// One step of the receiving side of the link. The caller says what
/// happened on the port and at what time; the frames that were completed go
/// on the bus as messages, and the caller is told what to do next.
pub fn listen(
    session: &mut Session,
    event: LinkEvent,
    now: time::OffsetDateTime,
    bus: &mut Bus,
) -> (report: ListenReport)
    ensures
        final(session)@ == old(session)@.after(event@),
        report.next == old(session)@.next(event@),
        final(bus)@ == old(bus)@.send_all(old(session)@.published(event@, now)),
        report.lossy == old(bus)@.lossy_sends(old(session)@.published(event@, now)),
        old(bus)@.wf() ==> final(bus)@.wf(),
{
    let ghost start = old(session)@;
    let ghost wanted = start.published(event@, now);
    match event {
        LinkEvent::OpenFailed(reason) => {
            session.state = LinkState::Disconnected;
            session.decoder.reset();
            let note = join3(
                "[WARN] TTY disconnected, waiting for connection... (",
                reason.as_str(),
                ")",
            );
            let lossy = send_note(bus, note);
            ListenReport { next: LinkAction::Backoff, lossy }
        },
        LinkEvent::Opened => {
            session.state = LinkState::Streaming;
            session.decoder.reset();
            ListenReport { next: LinkAction::Read, lossy: 0 }
        },
        LinkEvent::Read(bytes) => {
            if session.state == LinkState::Streaming && bytes.len() > 0 {
                let outcomes = session.decoder.feed(bytes.as_slice());
                let lossy = publish(bus, &outcomes, now);
                assert(outcomes_view(outcomes@) == decoded(frames_in(start.pending, bytes@)));
                ListenReport { next: LinkAction::Read, lossy }
            } else {
                close(session, bus)
            }
        },
        LinkEvent::Closed => close(session, bus),
    }
}

/// Takes the link down and leaves a note of it where it was up.
fn close(session: &mut Session, bus: &mut Bus) -> (report: ListenReport)
    ensures
        final(session)@ == (SessionView { state: LinkState::Disconnected, pending: Seq::empty() }),
        report.next == LinkAction::Open,
        old(session)@.state == LinkState::Streaming ==> final(bus)@ == old(bus)@.send_all(
            seq![MessageView::Log(closed_note())],
        ) && report.lossy == old(bus)@.lossy_sends(seq![MessageView::Log(closed_note())]),
        old(session)@.state != LinkState::Streaming ==> final(bus)@ == old(bus)@ && report.lossy
            == 0,
        old(bus)@.wf() ==> final(bus)@.wf(),
{
    let was_up = session.state == LinkState::Streaming;
    session.state = LinkState::Disconnected;
    session.decoder.reset();
    let lossy = if was_up {
        send_note(bus, "[WARN] TTY closed, reconnecting".to_owned())
    } else {
        0
    };
    ListenReport { next: LinkAction::Open, lossy }
}

/// Sends the message of each decoded frame on the bus, in order.
fn publish(
    bus: &mut Bus,
    outcomes: &Vec<Result<Package, DecodeError>>,
    now: time::OffsetDateTime,
) -> (lossy: usize)
    ensures
        final(bus)@ == old(bus)@.send_all(messages_of(outcomes_view(outcomes@), now)),
        lossy == old(bus)@.lossy_sends(messages_of(outcomes_view(outcomes@), now)),
        old(bus)@.wf() ==> final(bus)@.wf(),
{
    let ghost all = messages_of(outcomes_view(outcomes@), now);
    let mut lossy: usize = 0;
    let mut i: usize = 0;
    assert(all.take(0) =~= Seq::<MessageView>::empty());
    while i < outcomes.len()
        invariant
            i <= outcomes.len(),
            all == messages_of(outcomes_view(outcomes@), now),
            all.len() == outcomes.len(),
            lossy <= i,
            bus@ == old(bus)@.send_all(all.take(i as int)),
            lossy == old(bus)@.lossy_sends(all.take(i as int)),
            old(bus)@.wf() ==> bus@.wf(),
        decreases outcomes.len() - i,
    {
        let message = to_message(&outcomes[i], now);
        proof {
            let early = all.take(i + 1);
            assert(early.drop_last() =~= all.take(i as int));
            assert(early.last() == message@);
            lemma_send_all_keeps_capacity(old(bus)@, all.take(i as int));
        }
        let report = bus.send(&message);
        if report.dropped > 0 {
            lossy = lossy + 1;
        }
        i = i + 1;
    }
    assert(all.take(all.len() as int) =~= all);
    lossy
}

/// Whether the sending side has the port open.
#[derive(Clone, Copy, Debug, PartialEq, Eq, Structural)]
pub enum SenderState {
    Disconnected,
    Connected,
}

/// What happened on the sending side of the link.
#[derive(Debug)]
pub enum SenderEvent {
    /// The port could not be opened.
    OpenFailed,
    /// The port is open.
    Opened,
    /// This message came from the bus.
    Received(Message),
    /// The text `command` was written to the port, or could not be, for the
    /// reason in `failure`.
    Written { command: String, failure: Option<String> },
}

/// A [`SenderEvent`] as contracts see it.
pub enum SenderEventView {
    OpenFailed,
    Opened,
    Received(MessageView),
    Written { command: Seq<char>, failure: Option<Seq<char>> },
}

impl View for SenderEvent {
    type V = SenderEventView;

    open spec fn view(&self) -> SenderEventView {
        match self {
            SenderEvent::OpenFailed => SenderEventView::OpenFailed,
            SenderEvent::Opened => SenderEventView::Opened,
            SenderEvent::Received(message) => SenderEventView::Received(message@),
            SenderEvent::Written { command, failure } => SenderEventView::Written {
                command: command@,
                failure: match failure {
                    Some(reason) => Some(reason@),
                    None => None,
                },
            },
        }
    }
}

/// What the caller does next on the sending side.
#[derive(Debug, PartialEq, Eq)]
pub enum SenderAction {
    /// Open the port.
    Open,
    /// Wait for the backoff interval, then open the port.
    Backoff,
    /// Wait for the next message from the bus.
    Receive,
    /// Write the bytes of this text to the port, as they stand.
    Write(String),
}

/// A [`SenderAction`] as contracts see it.
pub enum SenderActionView {
    Open,
    Backoff,
    Receive,
    Write(Seq<char>),
}

impl View for SenderAction {
    type V = SenderActionView;

    open spec fn view(&self) -> SenderActionView {
        match self {
            SenderAction::Open => SenderActionView::Open,
            SenderAction::Backoff => SenderActionView::Backoff,
            SenderAction::Receive => SenderActionView::Receive,
            SenderAction::Write(text) => SenderActionView::Write(text@),
        }
    }
}

/// The note that tells how the writing of a command went.
pub open spec fn written_note(command: Seq<char>, failure: Option<Seq<char>>) -> Seq<char> {
    match failure {
        None => "[SYSTEM] Sent command: "@ + command,
        Some(reason) => "[SYSTEM] Failed to send command: "@ + command + " due to "@ + reason,
    }
}

/// The sending side after `event`: only the opening of the port connects
/// it, and only a failure to open disconnects it.
pub open spec fn sender_after(state: SenderState, event: SenderEventView) -> SenderState {
    match event {
        SenderEventView::OpenFailed => SenderState::Disconnected,
        SenderEventView::Opened => SenderState::Connected,
        _ => state,
    }
}

/// What the caller does next on the sending side. A command text that
/// comes from the bus while the port is open is written; every other
/// message is passed over.
pub open spec fn sender_next(state: SenderState, event: SenderEventView) -> SenderActionView {
    match event {
        SenderEventView::OpenFailed => SenderActionView::Backoff,
        SenderEventView::Opened => SenderActionView::Receive,
        SenderEventView::Received(message) => if state == SenderState::Disconnected {
            SenderActionView::Open
        } else {
            match message {
                MessageView::Command(CommandView::SendCommand(text)) => SenderActionView::Write(
                    text,
                ),
                _ => SenderActionView::Receive,
            }
        },
        SenderEventView::Written { .. } => if state == SenderState::Disconnected {
            SenderActionView::Open
        } else {
            SenderActionView::Receive
        },
    }
}

/// What `event` sends on the bus: a note for each command that was written
/// or could not be.
pub open spec fn sender_published(event: SenderEventView) -> Seq<MessageView> {
    match event {
        SenderEventView::Written { command, failure } => seq![
            MessageView::Log(written_note(command, failure)),
        ],
        _ => Seq::empty(),
    }
}

/// One step of the sending side of the link. The caller says what happened;
/// it is told what to do next, and the outcome of a write goes on the bus
/// as a note. A write that failed does not take the sender down.
pub fn send_commands(state: &mut SenderState, event: SenderEvent, bus: &mut Bus) -> (next:
    SenderAction)
    ensures
        *final(state) == sender_after(*old(state), event@),
        next@ == sender_next(*old(state), event@),
        final(bus)@ == old(bus)@.send_all(sender_published(event@)),
        old(bus)@.wf() ==> final(bus)@.wf(),
{
    let connected = match *state {
        SenderState::Connected => true,
        SenderState::Disconnected => false,
    };
    match event {
        SenderEvent::OpenFailed => {
            *state = SenderState::Disconnected;
            SenderAction::Backoff
        },
        SenderEvent::Opened => {
            *state = SenderState::Connected;
            SenderAction::Receive
        },
        SenderEvent::Received(message) => {
            if !connected {
                SenderAction::Open
            } else {
                match message {
                    Message::Command(Command::SendCommand(text)) => SenderAction::Write(text),
                    _ => SenderAction::Receive,
                }
            }
        },
        SenderEvent::Written { command, failure } => {
            let note = match &failure {
                None => join2("[SYSTEM] Sent command: ", command.as_str()),
                Some(reason) => {
                    let mut note = join3(
                        "[SYSTEM] Failed to send command: ",
                        command.as_str(),
                        " due to ",
                    );
                    note.append(reason.as_str());
                    note
                },
            };
            let _ = send_note(bus, note);
            if connected {
                SenderAction::Receive
            } else {
                SenderAction::Open
            }
        },
    }
}

} // verus!
