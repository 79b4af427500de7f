//! The recorder: it keeps the telemetry frames that pass on the bus and has
//! them written out as a table, when asked to or when it holds as many as
//! it may.

use std::collections::VecDeque;
use vstd::prelude::*;
use crate::message::{Command, CommandView, Message, MessageView};
use crate::table::{Table, TableView, build_table, frames_view, lemma_table_shape, table_of};
use crate::telemetry::{Frame, FrameView};
use crate::text::{join2, join3};

verus! {

/// The number of frames at which the recorder has them written out and
/// starts over, unless it was made with another.
pub const MAX_FRAMES: usize = 90_000;

/// How the time of an export is written in the name of its file: date and
/// time of day, to the second. The words in brackets are those of the `time`
/// crate's format descriptions.
pub const FILE_TIME_FORMAT: &'static str = "[year]-[month]-[day]T[hour]:[minute]:[second]";

/// What the recorder's caller has to do for it.
#[derive(Debug, PartialEq)]
pub enum RecorderAction {
    /// Write this table to a new file. `automatic` is set where the recorder
    /// was full, and not where an operator asked.
    Write { table: Table, automatic: bool },
    /// Print this line of the log.
    Print(String),
    /// Stop handing messages to the recorder.
    Exit,
}

/// A [`RecorderAction`] as contracts see it.
pub enum RecorderActionView {
    Write { table: TableView, automatic: bool },
    Print(Seq<char>),
    Exit,
}

impl View for RecorderAction {
    type V = RecorderActionView;

    open spec fn view(&self) -> RecorderActionView {
        match self {
            RecorderAction::Write { table, automatic } => RecorderActionView::Write {
                table: table@,
                automatic: *automatic,
            },
            RecorderAction::Print(line) => RecorderActionView::Print(line@),
            RecorderAction::Exit => RecorderActionView::Exit,
        }
    }
}

/// Actions as contracts see them.
pub open spec fn actions_view(actions: Seq<RecorderAction>) -> Seq<RecorderActionView> {
    Seq::new(actions.len(), |i: int| actions[i]@)
}

/// Messages as contracts see them.
pub open spec fn messages_view(messages: Seq<Message>) -> Seq<MessageView> {
    Seq::new(messages.len(), |i: int| messages[i]@)
}

/// The buffer of frames, oldest first, and the number of frames at which it
/// is written out.
pub struct Recorder {
    frames: Vec<Frame>,
    ceiling: usize,
}

/// A [`Recorder`] as contracts see it.
pub struct RecorderView {
    pub frames: Seq<FrameView>,
    pub ceiling: nat,
}

impl View for Recorder {
    type V = RecorderView;

    closed spec fn view(&self) -> RecorderView {
        RecorderView { frames: frames_view(self.frames@), ceiling: self.ceiling as nat }
    }
}

/// What a run of the recorder over some messages came to.
#[derive(Debug, PartialEq)]
pub struct RecorderRun {
    /// What the caller has to do, in order.
    pub actions: Vec<RecorderAction>,
    /// Whether the recorder was told to stop. The messages after that one
    /// were not looked at.
    pub exited: bool,
}

/// Whether one of the messages tells the recorder to stop.
pub open spec fn stopped(messages: Seq<MessageView>) -> bool
    decreases messages.len(),
{
    if messages.len() == 0 {
        false
    } else {
        stopped(messages.drop_last()) || messages.last() == MessageView::Command(
            CommandView::Exit,
        )
    }
}

impl RecorderView {
    /// The recorder with nothing buffered.
    pub open spec fn cleared(self) -> RecorderView {
        RecorderView { frames: Seq::empty(), ceiling: self.ceiling }
    }

    /// Whether one more frame fills the buffer.
    pub open spec fn fills(self) -> bool {
        self.frames.len() + 1 >= self.ceiling
    }

    /// The recorder after `message`. A frame is buffered, or, where it fills
    /// the buffer, leaves it empty; a reset empties it; nothing else changes
    /// it.
    pub open spec fn after(self, message: MessageView) -> RecorderView {
        match message {
            MessageView::Telemetry(frame) => if self.fills() {
                self.cleared()
            } else {
                RecorderView { frames: self.frames.push(frame), ceiling: self.ceiling }
            },
            MessageView::Command(CommandView::Reset) => self.cleared(),
            _ => self,
        }
    }

    /// What `message` asks of the caller: to write the table of all frames
    /// where a frame fills the buffer or an export is asked for, to print a
    /// log line, or to stop.
    pub open spec fn action(self, message: MessageView) -> Option<RecorderActionView> {
        match message {
            MessageView::Telemetry(frame) => if self.fills() {
                Some(
                    RecorderActionView::Write {
                        table: table_of(self.frames.push(frame)),
                        automatic: true,
                    },
                )
            } else {
                None
            },
            MessageView::Command(CommandView::Export) => Some(
                RecorderActionView::Write { table: table_of(self.frames), automatic: false },
            ),
            MessageView::Command(CommandView::Exit) => Some(RecorderActionView::Exit),
            MessageView::Command(_) => None,
            MessageView::Log(line) => Some(RecorderActionView::Print(line)),
        }
    }

    /// The recorder after the messages, taken in order up to the first that
    /// tells it to stop.
    pub open spec fn after_all(self, messages: Seq<MessageView>) -> RecorderView
        decreases messages.len(),
    {
        if messages.len() == 0 {
            self
        } else if stopped(messages.drop_last()) {
            self.after_all(messages.drop_last())
        } else {
            self.after_all(messages.drop_last()).after(messages.last())
        }
    }

    /// What the messages ask of the caller, in order, up to the first that
    /// tells the recorder to stop.
    pub open spec fn actions(self, messages: Seq<MessageView>) -> Seq<RecorderActionView>
        decreases messages.len(),
    {
        if messages.len() == 0 {
            Seq::empty()
        } else if stopped(messages.drop_last()) {
            self.actions(messages.drop_last())
        } else {
            match self.after_all(messages.drop_last()).action(messages.last()) {
                Some(action) => self.actions(messages.drop_last()).push(action),
                None => self.actions(messages.drop_last()),
            }
        }
    }
}

impl Recorder {
    /// A recorder that writes out every [`MAX_FRAMES`] frames.
    pub fn new() -> (recorder: Recorder)
        ensures
            recorder@ == (RecorderView { frames: Seq::empty(), ceiling: MAX_FRAMES as nat }),
    {
        Recorder::with_ceiling(MAX_FRAMES)
    }

    /// A recorder that writes out every `ceiling` frames.
    pub fn with_ceiling(ceiling: usize) -> (recorder: Recorder)
        ensures
            recorder@ == (RecorderView { frames: Seq::empty(), ceiling: ceiling as nat }),
    {
        let recorder = Recorder { frames: Vec::new(), ceiling };
        assert(recorder@.frames =~= Seq::empty());
        recorder
    }

    /// The number of frames in the buffer.
    pub fn len(&self) -> (count: usize)
        ensures
            count == self@.frames.len(),
    {
        self.frames.len()
    }

    /// Discards the buffered frames.
    pub fn reset(&mut self)
        ensures
            final(self)@ == old(self)@.cleared(),
    {
        self.frames.clear();
        assert(self@.frames =~= Seq::empty());
    }

    /// The table of the buffered frames. The buffer stays as it is.
    pub fn export(&self) -> (table: Table)
        ensures
            table@ == table_of(self@.frames),
    {
        build_table(&self.frames)
    }

    /// Takes one message from the bus and says what the caller has to do.
    pub fn step(&mut self, message: Message) -> (action: Option<RecorderAction>)
        ensures
            final(self)@ == old(self)@.after(message@),
            match old(self)@.action(message@) {
                Some(wanted) => action matches Some(a) && a@ == wanted,
                None => action is None,
            },
    {
        match message {
            Message::Telemetry(frame) => {
                let ghost before = frames_view(self.frames@);
                self.frames.push(frame);
                assert(frames_view(self.frames@) =~= before.push(frame@));
                if self.frames.len() >= self.ceiling {
                    let table = build_table(&self.frames);
                    self.frames.clear();
                    assert(self@.frames =~= Seq::empty());
                    Some(RecorderAction::Write { table, automatic: true })
                } else {
                    None
                }
            },
            Message::Command(command) => match command {
                Command::Export => Some(
                    RecorderAction::Write { table: build_table(&self.frames), automatic: false },
                ),
                Command::Reset => {
                    self.reset();
                    None
                },
                Command::Exit => Some(RecorderAction::Exit),
                Command::SendCommand(_) => None,
            },
            Message::Log(line) => Some(RecorderAction::Print(line)),
        }
    }

    /// Takes the messages in order, up to the first that tells the recorder
    /// to stop, and says what the caller has to do.
    pub fn run(&mut self, messages: VecDeque<Message>) -> (done: RecorderRun)
        ensures
            final(self)@ == old(self)@.after_all(messages_view(messages@)),
            actions_view(done.actions@) == old(self)@.actions(messages_view(messages@)),
            done.exited == stopped(messages_view(messages@)),
    {
        let ghost all = messages_view(messages@);
        let mut inbox = messages;
        let mut actions: Vec<RecorderAction> = Vec::new();
        let mut exited = false;
        let ghost mut taken: int = 0;
        assert(all.take(0) =~= Seq::<MessageView>::empty());
        assert(actions_view(actions@) =~= Seq::<RecorderActionView>::empty());
        assert(all.skip(0) =~= all);
        while inbox.len() > 0 && !exited
            invariant
                0 <= taken <= all.len(),
                inbox@.len() == all.len() - taken,
                messages_view(inbox@) == all.skip(taken),
                self@ == old(self)@.after_all(all.take(taken)),
                actions_view(actions@) == old(self)@.actions(all.take(taken)),
                exited == stopped(all.take(taken)),
                exited ==> stopped(all),
            decreases inbox.len(),
        {
            let ghost before = actions_view(actions@);
            let ghost rest = inbox@;
            let message = take_first(&mut inbox);
            proof {
                assert(messages_view(rest)[0] == rest[0]@);
                assert(all.skip(taken)[0] == all[taken]);
                assert(message@ == all[taken]);
                let early = all.take(taken + 1);
                assert(early.drop_last() =~= all.take(taken));
                assert(early.last() == all[taken]);
                assert forall|k: int| 0 <= k < inbox@.len() implies messages_view(inbox@)[k]
                    == all.skip(taken + 1)[k] by {
                    assert(inbox@[k] == rest[k + 1]);
                    assert(messages_view(rest)[k + 1] == rest[k + 1]@);
                    assert(all.skip(taken)[k + 1] == all[taken + k + 1]);
                }
                assert(messages_view(inbox@) =~= all.skip(taken + 1));
            }
            match self.step(message) {
                Some(action) => {
                    if let RecorderAction::Exit = action {
                        exited = true;
                    }
                    actions.push(action);
                    assert(actions_view(actions@) =~= before.push(action@));
                },
                None => {},
            }
            proof {
                taken = taken + 1;
                if exited {
                    lemma_stopped_grows(all, taken);
                }
            }
        }
        proof {
            if !exited {
                assert(all.take(taken) =~= all);
            } else {
                lemma_after_stop(old(self)@, all, taken);
            }
        }
        RecorderRun { actions, exited }
    }
}

/// Takes the first of the messages.
fn take_first(inbox: &mut VecDeque<Message>) -> (message: Message)
    requires
        old(inbox)@.len() > 0,
    ensures
        message == old(inbox)@[0],
        final(inbox)@ == old(inbox)@.subrange(1, old(inbox)@.len() as int),
{
    match inbox.pop_front() {
        Some(message) => message,
        None => vstd::pervasive::unreached(),
    }
}

/// Once a message has told the recorder to stop, every longer run has
/// stopped too.
proof fn lemma_stopped_grows(messages: Seq<MessageView>, taken: int)
    requires
        0 <= taken <= messages.len(),
        stopped(messages.take(taken)),
    ensures
        stopped(messages),
    decreases messages.len() - taken,
{
    if taken < messages.len() {
        let longer = messages.take(taken + 1);
        assert(longer.drop_last() =~= messages.take(taken));
        lemma_stopped_grows(messages, taken + 1);
    } else {
        assert(messages.take(taken) =~= messages);
    }
}

/// What follows the message that stopped the recorder changes nothing.
proof fn lemma_after_stop(recorder: RecorderView, messages: Seq<MessageView>, taken: int)
    requires
        0 <= taken <= messages.len(),
        stopped(messages.take(taken)),
    ensures
        recorder.after_all(messages) == recorder.after_all(messages.take(taken)),
        recorder.actions(messages) == recorder.actions(messages.take(taken)),
    decreases messages.len() - taken,
{
    if taken < messages.len() {
        let longer = messages.take(taken + 1);
        assert(longer.drop_last() =~= messages.take(taken));
        lemma_stopped_grows(messages.take(taken + 1), taken);
        assert(messages.take(taken + 1).take(taken) =~= messages.take(taken));
        lemma_after_stop(recorder, messages, taken + 1);
    } else {
        assert(messages.take(taken) =~= messages);
    }
}

/// The messages that carry the frames, one each.
pub open spec fn telemetry(frames: Seq<FrameView>) -> Seq<MessageView> {
    Seq::new(frames.len(), |i: int| MessageView::Telemetry(frames[i]))
}

/// Frames that do not fill the buffer are kept, in order, and ask nothing of
/// the caller.
pub proof fn lemma_below_ceiling(recorder: RecorderView, frames: Seq<FrameView>)
    requires
        recorder.frames.len() + frames.len() < recorder.ceiling,
    ensures
        !stopped(telemetry(frames)),
        recorder.after_all(telemetry(frames)) == (RecorderView {
            frames: recorder.frames + frames,
            ceiling: recorder.ceiling,
        }),
        recorder.actions(telemetry(frames)) == Seq::<RecorderActionView>::empty(),
    decreases frames.len(),
{
    let messages = telemetry(frames);
    if frames.len() == 0 {
        assert(recorder.frames + frames =~= recorder.frames);
    } else {
        let earlier = frames.drop_last();
        lemma_below_ceiling(recorder, earlier);
        assert(messages.drop_last() =~= telemetry(earlier));
        assert(messages.last() == MessageView::Telemetry(frames.last()));
        assert((recorder.frames + earlier).push(frames.last()) =~= recorder.frames + frames);
    }
}

/// Auto-export boundary: the frame that brings the buffer to its ceiling has
/// the table of all buffered frames written, that one included, with a row
/// to each of them, and leaves the buffer empty.
pub proof fn lemma_auto_export_boundary(recorder: RecorderView, frames: Seq<FrameView>)
    requires
        frames.len() >= 1,
        recorder.frames.len() + frames.len() == recorder.ceiling,
    ensures
        recorder.after_all(telemetry(frames)) == recorder.cleared(),
        recorder.actions(telemetry(frames)) == seq![
            RecorderActionView::Write {
                table: table_of(recorder.frames + frames),
                automatic: true,
            },
        ],
        table_of(recorder.frames + frames).rows.len() == recorder.ceiling,
{
    let messages = telemetry(frames);
    let earlier = frames.drop_last();
    lemma_below_ceiling(recorder, earlier);
    lemma_table_shape(recorder.frames + frames);
    assert(messages.drop_last() =~= telemetry(earlier));
    assert(messages.last() == MessageView::Telemetry(frames.last()));
    assert((recorder.frames + earlier).push(frames.last()) =~= recorder.frames + frames);
    let write = RecorderActionView::Write {
        table: table_of(recorder.frames + frames),
        automatic: true,
    };
    assert(Seq::<RecorderActionView>::empty().push(write) =~= seq![write]);
}

/// The line that tells how an export went. `outcome` is the path of the
/// file that was written, or the reason why none was.
pub open spec fn report_text(automatic: bool, outcome: Result<Seq<char>, Seq<char>>) -> Seq<
    char,
> {
    match outcome {
        Ok(path) => if automatic {
            "[SYSTEM] Auto-exported data"@
        } else {
            "[SYSTEM] Exported data to "@ + path
        },
        Err(reason) => if automatic {
            "[SYSTEM] Failed to auto-export data: "@ + reason
        } else {
            "[SYSTEM] Failed to export data: "@ + reason
        },
    }
}

/// An outcome by the characters of its texts.
pub open spec fn outcome_text(outcome: Result<String, String>) -> Result<Seq<char>, Seq<char>> {
    match outcome {
        Ok(path) => Ok(path@),
        Err(reason) => Err(reason@),
    }
}

/// The log message that tells how an export went.
pub fn export_report(automatic: bool, outcome: &Result<String, String>) -> (message: Message)
    ensures
        message@ == MessageView::Log(report_text(automatic, outcome_text(*outcome))),
{
    let line = match outcome {
        Ok(path) => if automatic {
            "[SYSTEM] Auto-exported data".to_owned()
        } else {
            join2("[SYSTEM] Exported data to ", path.as_str())
        },
        Err(reason) => if automatic {
            join2("[SYSTEM] Failed to auto-export data: ", reason.as_str())
        } else {
            join2("[SYSTEM] Failed to export data: ", reason.as_str())
        },
    };
    Message::Log(line)
}

/// The name of the file of an export made at the time that reads `stamp`.
pub fn export_file_name(stamp: &str) -> (name: String)
    ensures
        name@ == "mctl-"@ + stamp@ + ".csv"@,
{
    join3("mctl-", stamp, ".csv")
}

} // verus!
