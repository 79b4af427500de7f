use mctl::codec::encode;
use mctl::decoder::Decoder;
use mctl::package::{DecodeError, LogRecord, Package, Severity, Value};

fn log(text: &str) -> Package {
    Package::Log(LogRecord { severity: Severity::Info, text: text.to_string() })
}

fn telemetry(counter: u32) -> Package {
    Package::Telemetry(vec![
        ("ctr".to_string(), Value::U32(counter)),
        ("volt".to_string(), Value::F32(3.3f32.to_bits())),
        ("gx".to_string(), Value::I32(-7)),
    ])
}

#[test]
fn round_trip_of_one_frame() {
    for package in [telemetry(0), telemetry(u32::MAX), log(""), log("sent report")] {
        let mut decoder = Decoder::new();
        let out = decoder.feed(&encode(&package));
        assert_eq!(out, vec![Ok(package)]);
        assert!(decoder.pending().is_empty());
    }
}

#[test]
fn round_trip_of_a_long_frame() {
    let package = log(&"a long line of the log ".repeat(200));
    let mut decoder = Decoder::new();
    assert_eq!(decoder.feed(&encode(&package)), vec![Ok(package)]);
    assert!(decoder.pending().is_empty());
}

#[test]
fn resynchronises_after_garbage() {
    let junk = [0x05u8, 0x11, 0x22, 0xfe, 0x90, 0x01, 0x07];
    let mut stream = junk.to_vec();
    stream.push(0);
    stream.extend_from_slice(&encode(&telemetry(9)));
    let mut decoder = Decoder::new();
    let out = decoder.feed(&stream);
    assert_eq!(out.len(), 2);
    assert!(out[0].is_err());
    assert_eq!(out[1], Ok(telemetry(9)));
    assert!(decoder.pending().is_empty());
}

#[test]
fn resynchronises_after_garbage_with_zeros_in_it() {
    let mut stream = vec![0x03, 0x01, 0x00, 0x00, 0x09, 0x01, 0x02, 0x00, 0xff, 0xff];
    stream.push(0);
    stream.extend_from_slice(&encode(&log("after")));
    let mut decoder = Decoder::new();
    let out = decoder.feed(&stream);
    assert_eq!(out.last(), Some(&Ok(log("after"))));
    assert_eq!(out.len(), 4);
    assert_eq!(out[0], Err(DecodeError::BadEncoding));
    assert_eq!(out[1], Err(DecodeError::BadEncoding));
    assert_eq!(out[2], Err(DecodeError::BadEncoding));
    assert!(decoder.pending().is_empty());
}

#[test]
fn resynchronises_after_a_frame_cut_short() {
    let whole = encode(&telemetry(1));
    let mut stream = whole[..whole.len() / 2].to_vec();
    stream.push(0);
    stream.extend_from_slice(&encode(&telemetry(2)));
    let mut decoder = Decoder::new();
    let out = decoder.feed(&stream);
    assert_eq!(out.len(), 2);
    assert!(out[0].is_err());
    assert_eq!(out[1], Ok(telemetry(2)));
}

#[test]
fn idle_zeros_yield_nothing() {
    let mut decoder = Decoder::new();
    assert_eq!(decoder.feed(&[0; 64]), vec![]);
    assert!(decoder.pending().is_empty());
    assert_eq!(decoder.feed(&[0]), vec![]);
    assert_eq!(decoder.feed(&[]), vec![]);
    assert!(decoder.pending().is_empty());
}

#[test]
fn idle_zeros_around_frames_are_skipped() {
    let mut stream = vec![0, 0, 0];
    stream.extend_from_slice(&encode(&telemetry(1)));
    stream.extend_from_slice(&[0, 0]);
    stream.extend_from_slice(&encode(&log("x")));
    stream.extend_from_slice(&[0, 0, 0, 0]);
    let mut decoder = Decoder::new();
    assert_eq!(decoder.feed(&stream), vec![Ok(telemetry(1)), Ok(log("x"))]);
    assert!(decoder.pending().is_empty());
}

#[test]
fn partial_reads_are_put_together() {
    let frame = encode(&telemetry(77));
    for cut in 0..frame.len() {
        let mut decoder = Decoder::new();
        assert_eq!(decoder.feed(&frame[..cut]), vec![]);
        assert_eq!(decoder.pending(), &frame[..cut]);
        assert_eq!(decoder.feed(&frame[cut..]), vec![Ok(telemetry(77))]);
        assert!(decoder.pending().is_empty());
    }
}

#[test]
fn byte_by_byte_reads_are_put_together() {
    let frame = encode(&log("one byte at a time"));
    let mut decoder = Decoder::new();
    for byte in &frame[..frame.len() - 1] {
        assert_eq!(decoder.feed(&[*byte]), vec![]);
    }
    assert_eq!(decoder.feed(&[0]), vec![Ok(log("one byte at a time"))]);
    assert!(decoder.pending().is_empty());
}

#[test]
fn two_frames_in_one_read() {
    let mut stream = encode(&telemetry(1));
    stream.extend_from_slice(&encode(&telemetry(2)));
    let mut decoder = Decoder::new();
    assert_eq!(decoder.feed(&stream), vec![Ok(telemetry(1)), Ok(telemetry(2))]);
    assert!(decoder.pending().is_empty());
}

#[test]
fn a_read_may_end_inside_the_next_frame() {
    let first = encode(&telemetry(1));
    let second = encode(&log("second"));
    let mut stream = first.clone();
    stream.extend_from_slice(&second[..3]);
    let mut decoder = Decoder::new();
    assert_eq!(decoder.feed(&stream), vec![Ok(telemetry(1))]);
    assert_eq!(decoder.pending(), &second[..3]);
    assert_eq!(decoder.feed(&second[3..]), vec![Ok(log("second"))]);
    assert!(decoder.pending().is_empty());
}

#[test]
fn the_cut_of_the_stream_does_not_matter() {
    let mut stream = vec![0, 0x07, 0x01, 0];
    for counter in 0..5 {
        stream.extend_from_slice(&encode(&telemetry(counter)));
        stream.extend_from_slice(&encode(&log("between")));
        stream.push(0);
    }
    stream.extend_from_slice(&[0x04, 0x01]);
    let mut whole = Decoder::new();
    let expected = whole.feed(&stream);
    assert_eq!(expected.len(), 11);
    for size in [1usize, 2, 3, 5, 7, 64] {
        let mut decoder = Decoder::new();
        let mut out = Vec::new();
        for chunk in stream.chunks(size) {
            out.extend(decoder.feed(chunk));
        }
        assert_eq!(out, expected);
        assert_eq!(decoder.pending(), whole.pending());
        assert_eq!(decoder.pending(), &[0x04, 0x01]);
    }
}

#[test]
fn a_frame_that_does_not_decode_is_reported_and_dropped() {
    let mut decoder = Decoder::new();
    assert_eq!(decoder.feed(&[0x02, 0x09, 0x00]), vec![Err(DecodeError::BadEnum)]);
    assert!(decoder.pending().is_empty());
    assert_eq!(decoder.feed(&[0x01, 0x00]), vec![Err(DecodeError::UnexpectedEnd)]);
    assert_eq!(decoder.feed(&[0x09, 0x01, 0x00]), vec![Err(DecodeError::BadEncoding)]);
    assert_eq!(decoder.feed(&encode(&log("still here"))), vec![Ok(log("still here"))]);
}

#[test]
fn reset_forgets_what_is_pending() {
    let frame = encode(&telemetry(3));
    let mut decoder = Decoder::new();
    assert_eq!(decoder.feed(&frame[..4]), vec![]);
    assert_eq!(decoder.pending().len(), 4);
    decoder.reset();
    assert!(decoder.pending().is_empty());
    assert_eq!(decoder.feed(&frame), vec![Ok(telemetry(3))]);
}
