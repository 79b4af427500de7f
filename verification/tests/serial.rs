use mctl::bus::{Bus, Delivery};
use mctl::codec::encode;
use mctl::message::{Command, Message};
use mctl::package::{DecodeError, LogRecord, Package, Severity, Value};
use mctl::serial::{
    listen, send_commands, to_message, LinkAction, LinkEvent, LinkState, ListenReport,
    SenderAction, SenderEvent, SenderState, Session, BACKOFF_SECONDS, READ_SIZE, SATURATED_NOTE,
};
use mctl::telemetry::Frame;
use time::OffsetDateTime;

fn instant(seconds: i64) -> OffsetDateTime {
    OffsetDateTime::from_unix_timestamp(seconds).unwrap()
}

fn telemetry(counter: u32) -> Package {
    Package::Telemetry(vec![
        ("ctr".to_string(), Value::U32(counter)),
        ("volt".to_string(), Value::F32(3.3f32.to_bits())),
    ])
}

fn frame(counter: u32, seconds: i64) -> Frame {
    Frame::new(
        instant(seconds),
        &[
            ("ctr".to_string(), Value::U32(counter)),
            ("volt".to_string(), Value::F32(3.3f32.to_bits())),
        ],
    )
}

fn drain(bus: &mut Bus, reader: usize) -> Vec<Message> {
    let mut out = Vec::new();
    while let Some(Delivery { message, .. }) = bus.recv(reader) {
        out.push(message);
    }
    out
}

fn log(line: &str) -> Message {
    Message::Log(line.to_string())
}

#[test]
fn reference_values() {
    assert_eq!(BACKOFF_SECONDS, 1);
    assert_eq!(READ_SIZE, 2048);
    assert_eq!(SATURATED_NOTE, "[WARN] Message bus saturated, losing data");
}

#[test]
fn decoded_frames_become_messages() {
    assert_eq!(to_message(&Ok(telemetry(4)), instant(8)), Message::Telemetry(frame(4, 8)));
    let record = LogRecord { severity: Severity::Info, text: "sent report".to_string() };
    assert_eq!(to_message(&Ok(Package::Log(record)), instant(8)), log("[INFO] sent report"));
    assert_eq!(
        to_message(&Err(DecodeError::BadEncoding), instant(8)),
        log("[WARN] Got an error reading serial device: frame is not a valid byte-stuffed record")
    );
}

#[test]
fn a_port_that_does_not_open_is_tried_again_after_a_wait() {
    let mut bus = Bus::new(8);
    let reader = bus.subscribe();
    let mut session = Session::new();
    assert_eq!(session.state(), LinkState::Disconnected);
    let report = listen(
        &mut session,
        LinkEvent::OpenFailed("No such file or directory".to_string()),
        instant(0),
        &mut bus,
    );
    assert_eq!(report, ListenReport { next: LinkAction::Backoff, lossy: 0 });
    assert_eq!(session.state(), LinkState::Disconnected);
    assert_eq!(
        drain(&mut bus, reader),
        vec![log(
            "[WARN] TTY disconnected, waiting for connection... (No such file or directory)"
        )]
    );
}

#[test]
fn an_open_port_is_read() {
    let mut bus = Bus::new(8);
    let reader = bus.subscribe();
    let mut session = Session::new();
    let report = listen(&mut session, LinkEvent::Opened, instant(0), &mut bus);
    assert_eq!(report, ListenReport { next: LinkAction::Read, lossy: 0 });
    assert_eq!(session.state(), LinkState::Streaming);
    assert_eq!(drain(&mut bus, reader), vec![]);
}

#[test]
fn frames_that_are_read_go_on_the_bus_in_order() {
    let mut bus = Bus::new(8);
    let reader = bus.subscribe();
    let mut session = Session::new();
    listen(&mut session, LinkEvent::Opened, instant(0), &mut bus);
    let mut bytes = encode(&telemetry(1));
    let record = LogRecord { severity: Severity::Warn, text: "hot".to_string() };
    bytes.extend_from_slice(&encode(&Package::Log(record)));
    bytes.extend_from_slice(&[0x09, 0x01, 0x00]);
    bytes.extend_from_slice(&encode(&telemetry(2)));
    let report = listen(&mut session, LinkEvent::Read(bytes), instant(42), &mut bus);
    assert_eq!(report, ListenReport { next: LinkAction::Read, lossy: 0 });
    assert_eq!(
        drain(&mut bus, reader),
        vec![
            Message::Telemetry(frame(1, 42)),
            log("[WARN] hot"),
            log("[WARN] Got an error reading serial device: frame is not a valid byte-stuffed record"),
            Message::Telemetry(frame(2, 42)),
        ]
    );
}

#[test]
fn a_frame_may_come_in_several_reads() {
    let mut bus = Bus::new(8);
    let reader = bus.subscribe();
    let mut session = Session::new();
    listen(&mut session, LinkEvent::Opened, instant(0), &mut bus);
    let bytes = encode(&telemetry(5));
    let (head, tail) = bytes.split_at(4);
    let first = listen(&mut session, LinkEvent::Read(head.to_vec()), instant(1), &mut bus);
    assert_eq!(first, ListenReport { next: LinkAction::Read, lossy: 0 });
    assert_eq!(drain(&mut bus, reader), vec![]);
    listen(&mut session, LinkEvent::Read(tail.to_vec()), instant(2), &mut bus);
    assert_eq!(drain(&mut bus, reader), vec![Message::Telemetry(frame(5, 2))]);
}

#[test]
fn a_lost_link_is_opened_again_and_starts_over() {
    let mut bus = Bus::new(8);
    let reader = bus.subscribe();
    let mut session = Session::new();
    listen(&mut session, LinkEvent::Opened, instant(0), &mut bus);
    let bytes = encode(&telemetry(5));
    listen(&mut session, LinkEvent::Read(bytes[..4].to_vec()), instant(1), &mut bus);
    let report = listen(&mut session, LinkEvent::Read(vec![]), instant(2), &mut bus);
    assert_eq!(report, ListenReport { next: LinkAction::Open, lossy: 0 });
    assert_eq!(session.state(), LinkState::Disconnected);
    assert_eq!(drain(&mut bus, reader), vec![log("[WARN] TTY closed, reconnecting")]);
    listen(&mut session, LinkEvent::Opened, instant(3), &mut bus);
    listen(&mut session, LinkEvent::Read(bytes[4..].to_vec()), instant(4), &mut bus);
    listen(&mut session, LinkEvent::Read(encode(&telemetry(6))), instant(5), &mut bus);
    let seen = drain(&mut bus, reader);
    assert_eq!(seen.len(), 2);
    assert!(matches!(seen[0], Message::Log(_)));
    assert_eq!(seen[1], Message::Telemetry(frame(6, 5)));
}

#[test]
fn a_failed_read_takes_the_link_down() {
    let mut bus = Bus::new(8);
    let reader = bus.subscribe();
    let mut session = Session::new();
    listen(&mut session, LinkEvent::Opened, instant(0), &mut bus);
    let report = listen(&mut session, LinkEvent::Closed, instant(1), &mut bus);
    assert_eq!(report, ListenReport { next: LinkAction::Open, lossy: 0 });
    assert_eq!(session.state(), LinkState::Disconnected);
    assert_eq!(drain(&mut bus, reader), vec![log("[WARN] TTY closed, reconnecting")]);
    let again = listen(&mut session, LinkEvent::Closed, instant(2), &mut bus);
    assert_eq!(again, ListenReport { next: LinkAction::Open, lossy: 0 });
    assert_eq!(drain(&mut bus, reader), vec![]);
}

#[test]
fn bytes_for_a_link_that_is_down_are_not_decoded() {
    let mut bus = Bus::new(8);
    let reader = bus.subscribe();
    let mut session = Session::new();
    let report =
        listen(&mut session, LinkEvent::Read(encode(&telemetry(1))), instant(0), &mut bus);
    assert_eq!(report, ListenReport { next: LinkAction::Open, lossy: 0 });
    assert_eq!(drain(&mut bus, reader), vec![]);
}

#[test]
fn a_full_bus_loses_frames_and_says_so() {
    let mut bus = Bus::new(2);
    let reader = bus.subscribe();
    let mut session = Session::new();
    listen(&mut session, LinkEvent::Opened, instant(0), &mut bus);
    let mut bytes = Vec::new();
    for counter in 1..=5 {
        bytes.extend_from_slice(&encode(&telemetry(counter)));
    }
    let report = listen(&mut session, LinkEvent::Read(bytes), instant(1), &mut bus);
    assert_eq!(report, ListenReport { next: LinkAction::Read, lossy: 3 });
    assert_eq!(bus.missed(reader), 3);
    assert_eq!(
        drain(&mut bus, reader),
        vec![Message::Telemetry(frame(1, 1)), Message::Telemetry(frame(2, 1))]
    );
}

#[test]
fn the_sender_waits_when_the_port_does_not_open() {
    let mut bus = Bus::new(8);
    let mut state = SenderState::Connected;
    assert_eq!(send_commands(&mut state, SenderEvent::OpenFailed, &mut bus), SenderAction::Backoff);
    assert_eq!(state, SenderState::Disconnected);
    assert_eq!(send_commands(&mut state, SenderEvent::Opened, &mut bus), SenderAction::Receive);
    assert_eq!(state, SenderState::Connected);
}

#[test]
fn the_sender_writes_command_texts_only() {
    let mut bus = Bus::new(8);
    let mut state = SenderState::Connected;
    let command = Message::Command(Command::SendCommand("arm\n".to_string()));
    assert_eq!(
        send_commands(&mut state, SenderEvent::Received(command), &mut bus),
        SenderAction::Write("arm\n".to_string())
    );
    for other in [
        Message::Command(Command::Export),
        Message::Command(Command::Reset),
        Message::Command(Command::Exit),
        log("line"),
        Message::Telemetry(frame(1, 1)),
    ] {
        assert_eq!(
            send_commands(&mut state, SenderEvent::Received(other), &mut bus),
            SenderAction::Receive
        );
    }
    assert_eq!(state, SenderState::Connected);
}

#[test]
fn the_sender_opens_the_port_before_it_writes() {
    let mut bus = Bus::new(8);
    let mut state = SenderState::Disconnected;
    let command = Message::Command(Command::SendCommand("arm".to_string()));
    assert_eq!(
        send_commands(&mut state, SenderEvent::Received(command), &mut bus),
        SenderAction::Open
    );
    assert_eq!(state, SenderState::Disconnected);
}

#[test]
fn the_sender_tells_how_a_write_went() {
    let mut bus = Bus::new(8);
    let reader = bus.subscribe();
    let mut state = SenderState::Connected;
    let sent = SenderEvent::Written { command: "arm".to_string(), failure: None };
    assert_eq!(send_commands(&mut state, sent, &mut bus), SenderAction::Receive);
    let failed = SenderEvent::Written {
        command: "arm".to_string(),
        failure: Some("Broken pipe".to_string()),
    };
    assert_eq!(send_commands(&mut state, failed, &mut bus), SenderAction::Receive);
    assert_eq!(state, SenderState::Connected);
    assert_eq!(
        drain(&mut bus, reader),
        vec![
            log("[SYSTEM] Sent command: arm"),
            log("[SYSTEM] Failed to send command: arm due to Broken pipe"),
        ]
    );
}
