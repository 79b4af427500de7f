//! What travels on the bus.

use vstd::prelude::*;
use crate::telemetry::{Frame, FrameView};

verus! {

/// What an operator can ask of the station.
#[derive(Debug, PartialEq, Eq)]
pub enum Command {
    /// Write this text to the device, as it stands.
    SendCommand(String),
    /// Write the recorded frames to a new file.
    Export,
    /// Discard the recorded frames.
    Reset,
    /// Stop recording.
    Exit,
}

/// One message on the bus.
#[derive(Debug, PartialEq)]
pub enum Message {
    Command(Command),
    Telemetry(Frame),
    /// A line for the log: one of the device's own, or a note of the station.
    Log(String),
}

/// A [`Command`] as contracts see it.
pub enum CommandView {
    SendCommand(Seq<char>),
    Export,
    Reset,
    Exit,
}

/// A [`Message`] as contracts see it.
pub enum MessageView {
    Command(CommandView),
    Telemetry(FrameView),
    Log(Seq<char>),
}

impl View for Command {
    type V = CommandView;

    open spec fn view(&self) -> CommandView {
        match self {
            Command::SendCommand(text) => CommandView::SendCommand(text@),
            Command::Export => CommandView::Export,
            Command::Reset => CommandView::Reset,
            Command::Exit => CommandView::Exit,
        }
    }
}

impl View for Message {
    type V = MessageView;

    open spec fn view(&self) -> MessageView {
        match self {
            Message::Command(command) => MessageView::Command(command@),
            Message::Telemetry(frame) => MessageView::Telemetry(frame@),
            Message::Log(text) => MessageView::Log(text@),
        }
    }
}

impl Clone for Command {
    fn clone(&self) -> (copy: Command)
        ensures
            copy@ == self@,
    {
        match self {
            Command::SendCommand(text) => Command::SendCommand(text.clone()),
            Command::Export => Command::Export,
            Command::Reset => Command::Reset,
            Command::Exit => Command::Exit,
        }
    }
}

impl Clone for Message {
    fn clone(&self) -> (copy: Message)
        ensures
            copy@ == self@,
    {
        match self {
            Message::Command(command) => Message::Command(command.clone()),
            Message::Telemetry(frame) => Message::Telemetry(frame.clone()),
            Message::Log(text) => Message::Log(text.clone()),
        }
    }
}

} // verus!
