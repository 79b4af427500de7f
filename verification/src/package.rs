//! The messages that travel on the wire and the ways a frame can fail to
//! decode.

use vstd::prelude::*;
use vstd::string::StringExecFns;

verus! {

/// One sampled number. The wire carries a 32-bit float, an unsigned or a
/// signed 32-bit integer; the float is held by its IEEE-754 bit pattern.
#[derive(Clone, Copy, Debug, PartialEq, Eq, Structural)]
pub enum Value {
    F32(u32),
    U32(u32),
    I32(i32),
}

/// How serious the remote device considers a log line.
#[derive(Clone, Copy, Debug, PartialEq, Eq, Structural)]
pub enum Severity {
    Debug,
    Info,
    Warn,
    Error,
}

/// A log line of the remote device.
#[derive(Debug, PartialEq, Eq)]
pub struct LogRecord {
    pub severity: Severity,
    pub text: String,
}

/// What one wire frame carries.
#[derive(Debug, PartialEq, Eq)]
pub enum Package {
    /// The channels sampled at one instant, in the order the device sent them.
    Telemetry(Vec<(String, Value)>),
    Log(LogRecord),
}

/// Why a frame was discarded.
#[derive(Clone, Copy, Debug, PartialEq, Eq, Structural)]
pub enum DecodeError {
    /// A block of the byte stuffing runs past the end of the frame.
    BadEncoding,
    /// The payload ends before the message is complete.
    UnexpectedEnd,
    /// A variable-length integer is too long or too large for its type.
    BadVarint,
    /// A variant tag names no variant.
    BadEnum,
    /// A text is not UTF-8.
    BadUtf8,
}

/// A channel name with its sample, as contracts see it.
pub type Point = (Seq<char>, Value);

/// A [`Package`] as contracts see it.
pub enum PackageView {
    Telemetry(Seq<Point>),
    Log(Severity, Seq<char>),
}

/// The channels of a telemetry list, names by their characters.
pub open spec fn points_view(points: Seq<(String, Value)>) -> Seq<Point> {
    Seq::new(points.len(), |i: int| (points[i].0@, points[i].1))
}

impl View for Package {
    type V = PackageView;

    open spec fn view(&self) -> PackageView {
        match self {
            Package::Telemetry(points) => PackageView::Telemetry(points_view(points@)),
            Package::Log(record) => PackageView::Log(record.severity, record.text@),
        }
    }
}

/// The outcome of decoding one frame, as contracts see it.
pub open spec fn outcome_view(outcome: Result<Package, DecodeError>) -> Result<
    PackageView,
    DecodeError,
> {
    match outcome {
        Ok(package) => Ok(package@),
        Err(error) => Err(error),
    }
}

impl Severity {
    /// The word that stands for the severity in a log line.
    pub open spec fn label(self) -> Seq<char> {
        match self {
            Severity::Debug => "DEBUG"@,
            Severity::Info => "INFO"@,
            Severity::Warn => "WARN"@,
            Severity::Error => "ERROR"@,
        }
    }

    /// The word that stands for the severity in a log line.
    pub fn word(&self) -> (word: &'static str)
        ensures
            word@ == self.label(),
    {
        match self {
            Severity::Debug => "DEBUG",
            Severity::Info => "INFO",
            Severity::Warn => "WARN",
            Severity::Error => "ERROR",
        }
    }
}

/// A log record as one line: its severity in brackets, then its text.
pub open spec fn log_line(severity: Severity, text: Seq<char>) -> Seq<char> {
    "["@ + severity.label() + "] "@ + text
}

impl LogRecord {
    /// The record as one line: its severity in brackets, then its text.
    pub fn line(&self) -> (line: String)
        ensures
            line@ == log_line(self.severity, self.text@),
    {
        let mut line = "[".to_owned();
        line.append(self.severity.word());
        line.append("] ");
        line.append(self.text.as_str());
        line
    }
}

impl DecodeError {
    /// A short sentence for the log.
    pub fn describe(&self) -> (text: String)
        ensures
            text@ == self.description(),
    {
        match self {
            DecodeError::BadEncoding => "frame is not a valid byte-stuffed record".to_owned(),
            DecodeError::UnexpectedEnd => "frame ends before its message is complete".to_owned(),
            DecodeError::BadVarint => "frame holds an integer that is out of range".to_owned(),
            DecodeError::BadEnum => "frame names an unknown variant".to_owned(),
            DecodeError::BadUtf8 => "frame holds text that is not UTF-8".to_owned(),
        }
    }

    pub open spec fn description(&self) -> Seq<char> {
        match self {
            DecodeError::BadEncoding => "frame is not a valid byte-stuffed record"@,
            DecodeError::UnexpectedEnd => "frame ends before its message is complete"@,
            DecodeError::BadVarint => "frame holds an integer that is out of range"@,
            DecodeError::BadEnum => "frame names an unknown variant"@,
            DecodeError::BadUtf8 => "frame holds text that is not UTF-8"@,
        }
    }
}

} // verus!
