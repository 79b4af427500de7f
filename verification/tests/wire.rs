use mctl::codec::{decode, encode};
use mctl::package::{DecodeError, LogRecord, Package, Severity, Value};
use mctl::payload::{decode_payload, encode_payload, read_text, read_value, write_text, write_value};
use mctl::stuffing::{stuff_bytes, unstuff_bytes};
use mctl::varint::{read_u32, read_u64, write_varint, zigzag_decode, zigzag_encode};

fn varint(value: u64) -> Vec<u8> {
    let mut out = Vec::new();
    write_varint(&mut out, value);
    out
}

fn log(severity: Severity, text: &str) -> Package {
    Package::Log(LogRecord { severity, text: text.to_string() })
}

fn sample() -> Package {
    Package::Telemetry(vec![
        ("volt".to_string(), Value::F32(3.3f32.to_bits())),
        ("ctr".to_string(), Value::U32(300)),
        ("t".to_string(), Value::I32(-5)),
    ])
}

#[test]
fn varint_bytes_are_exact() {
    assert_eq!(varint(0), vec![0x00]);
    assert_eq!(varint(1), vec![0x01]);
    assert_eq!(varint(127), vec![0x7f]);
    assert_eq!(varint(128), vec![0x80, 0x01]);
    assert_eq!(varint(300), vec![0xac, 0x02]);
    assert_eq!(varint(16_384), vec![0x80, 0x80, 0x01]);
    assert_eq!(varint(u32::MAX as u64), vec![0xff, 0xff, 0xff, 0xff, 0x0f]);
    assert_eq!(
        varint(u64::MAX),
        vec![0xff, 0xff, 0xff, 0xff, 0xff, 0xff, 0xff, 0xff, 0xff, 0x01]
    );
}

#[test]
fn varint_appends_to_what_is_there() {
    let mut out = vec![9, 9];
    write_varint(&mut out, 300);
    assert_eq!(out, vec![9, 9, 0xac, 0x02]);
}

#[test]
fn varint_reads_back() {
    assert_eq!(read_u32(&[0x00], 0), Ok((0, 1)));
    assert_eq!(read_u32(&[0xac, 0x02, 0x55], 0), Ok((300, 2)));
    assert_eq!(read_u32(&[0x55, 0xac, 0x02], 1), Ok((300, 3)));
    assert_eq!(read_u32(&[0xff, 0xff, 0xff, 0xff, 0x0f], 0), Ok((u32::MAX, 5)));
    assert_eq!(
        read_u64(&[0xff, 0xff, 0xff, 0xff, 0xff, 0xff, 0xff, 0xff, 0xff, 0x01], 0),
        Ok((u64::MAX, 10))
    );
}

#[test]
fn varint_takes_a_padded_form() {
    assert_eq!(read_u32(&[0x80, 0x00], 0), Ok((0, 2)));
    assert_eq!(read_u32(&[0x81, 0x80, 0x00], 0), Ok((1, 3)));
}

#[test]
fn varint_that_ends_early_is_refused() {
    assert_eq!(read_u32(&[], 0), Err(DecodeError::UnexpectedEnd));
    assert_eq!(read_u32(&[0x80], 0), Err(DecodeError::UnexpectedEnd));
    assert_eq!(read_u32(&[0x01], 1), Err(DecodeError::UnexpectedEnd));
    assert_eq!(read_u32(&[0x01], 7), Err(DecodeError::UnexpectedEnd));
    assert_eq!(read_u64(&[0x01], 7), Err(DecodeError::UnexpectedEnd));
    assert_eq!(read_u64(&[0xff, 0xff], 0), Err(DecodeError::UnexpectedEnd));
}

#[test]
fn varint_that_is_too_large_is_refused() {
    assert_eq!(read_u32(&[0xff, 0xff, 0xff, 0xff, 0x10], 0), Err(DecodeError::BadVarint));
    assert_eq!(read_u32(&[0xff, 0xff, 0xff, 0xff, 0x8f, 0x00], 0), Err(DecodeError::BadVarint));
    assert_eq!(
        read_u64(&[0xff, 0xff, 0xff, 0xff, 0xff, 0xff, 0xff, 0xff, 0xff, 0x02], 0),
        Err(DecodeError::BadVarint)
    );
}

#[test]
fn zigzag_values_are_exact() {
    assert_eq!(zigzag_encode(0), 0);
    assert_eq!(zigzag_encode(-1), 1);
    assert_eq!(zigzag_encode(1), 2);
    assert_eq!(zigzag_encode(-2), 3);
    assert_eq!(zigzag_encode(2), 4);
    assert_eq!(zigzag_encode(i32::MAX), u32::MAX - 1);
    assert_eq!(zigzag_encode(i32::MIN), u32::MAX);
}

#[test]
fn zigzag_reads_back() {
    for n in [0, -1, 1, -2, 2, 1000, -1000, i32::MAX, i32::MIN] {
        assert_eq!(zigzag_decode(zigzag_encode(n)), n);
    }
    assert_eq!(zigzag_decode(3), -2);
    assert_eq!(zigzag_decode(u32::MAX), i32::MIN);
}

#[test]
fn stuffing_bytes_are_exact() {
    assert_eq!(stuff_bytes(&[]), vec![1]);
    assert_eq!(stuff_bytes(&[0]), vec![1, 1]);
    assert_eq!(stuff_bytes(&[0, 0]), vec![1, 1, 1]);
    assert_eq!(stuff_bytes(&[1, 2, 3]), vec![4, 1, 2, 3]);
    assert_eq!(stuff_bytes(&[1, 0, 2]), vec![2, 1, 2, 2]);
    assert_eq!(stuff_bytes(&[0x11, 0x22, 0x00, 0x33]), vec![3, 0x11, 0x22, 2, 0x33]);
    assert_eq!(stuff_bytes(&[0x11, 0x00, 0x00, 0x00]), vec![2, 0x11, 1, 1, 1]);
}

#[test]
fn stuffing_cuts_long_runs_into_blocks() {
    let run: Vec<u8> = (0..254u32).map(|i| (i % 255 + 1) as u8).collect();
    let mut block = vec![0xff];
    block.extend_from_slice(&run);

    let mut expected = block.clone();
    expected.push(1);
    assert_eq!(stuff_bytes(&run), expected);

    let mut shorter = vec![254];
    shorter.extend_from_slice(&run[..253]);
    assert_eq!(stuff_bytes(&run[..253]), shorter);

    let mut longer = run.clone();
    longer.push(7);
    let mut expected_longer = block.clone();
    expected_longer.extend_from_slice(&[2, 7]);
    assert_eq!(stuff_bytes(&longer), expected_longer);

    let mut with_zero = run.clone();
    with_zero.push(0);
    let mut expected_zero = block.clone();
    expected_zero.extend_from_slice(&[1, 1]);
    assert_eq!(stuff_bytes(&with_zero), expected_zero);

    let mut twice = run.clone();
    twice.extend_from_slice(&run);
    let mut expected_twice = block.clone();
    expected_twice.extend_from_slice(&block);
    expected_twice.push(1);
    assert_eq!(stuff_bytes(&twice), expected_twice);
}

#[test]
fn stuffing_leaves_no_zero_and_reads_back() {
    let mut payloads: Vec<Vec<u8>> = vec![vec![], vec![0], vec![0; 10], vec![5; 600]];
    payloads.push((0..1000u32).map(|i| (i % 7) as u8).collect());
    payloads.push((0..=255u8).collect());
    for payload in payloads {
        let stuffed = stuff_bytes(&payload);
        assert!(!stuffed.is_empty());
        assert!(stuffed.iter().all(|byte| *byte != 0));
        assert_eq!(unstuff_bytes(&stuffed), Some(payload));
    }
}

#[test]
fn unstuffing_refuses_a_block_that_does_not_fit() {
    assert_eq!(unstuff_bytes(&[5, 1]), None);
    assert_eq!(unstuff_bytes(&[2]), None);
    assert_eq!(unstuff_bytes(&[0]), None);
    assert_eq!(unstuff_bytes(&[2, 1, 3, 1]), None);
    assert_eq!(unstuff_bytes(&[]), Some(vec![]));
    assert_eq!(unstuff_bytes(&[1]), Some(vec![]));
}

#[test]
fn unstuffing_takes_a_full_block_at_the_end() {
    let run: Vec<u8> = vec![7; 254];
    let mut span = vec![0xff];
    span.extend_from_slice(&run);
    assert_eq!(unstuff_bytes(&span), Some(run.clone()));
    span.push(1);
    assert_eq!(unstuff_bytes(&span), Some(run));
}

#[test]
fn text_bytes_are_exact() {
    let mut out = Vec::new();
    write_text(&mut out, "hi");
    assert_eq!(out, vec![2, b'h', b'i']);
    let mut accented = Vec::new();
    write_text(&mut accented, "é");
    assert_eq!(accented, vec![2, 0xc3, 0xa9]);
    let mut empty = Vec::new();
    write_text(&mut empty, "");
    assert_eq!(empty, vec![0]);
}

#[test]
fn text_reads_back_what_its_bytes_say() {
    assert_eq!(read_text(&[2, b'h', b'i', 9], 0), Ok(("hi".to_string(), 3)));
    assert_eq!(read_text(&[9, 2, 0xc3, 0xa9], 1), Ok(("é".to_string(), 4)));
    assert_eq!(read_text(&[0], 0), Ok((String::new(), 1)));
    assert_eq!(read_text(&[3, b'h', b'i'], 0), Err(DecodeError::UnexpectedEnd));
    assert_eq!(read_text(&[2, 0xff, 0xfe], 0), Err(DecodeError::BadUtf8));
    assert_eq!(read_text(&[1, 0xc3], 0), Err(DecodeError::BadUtf8));
    assert_eq!(read_text(&[1, b'a'], 9), Err(DecodeError::UnexpectedEnd));
}

#[test]
fn value_bytes_are_exact() {
    let mut float = Vec::new();
    write_value(&mut float, Value::F32(1.0f32.to_bits()));
    assert_eq!(float, vec![0, 0x00, 0x00, 0x80, 0x3f]);
    let mut unsigned = Vec::new();
    write_value(&mut unsigned, Value::U32(300));
    assert_eq!(unsigned, vec![1, 0xac, 0x02]);
    let mut signed = Vec::new();
    write_value(&mut signed, Value::I32(-5));
    assert_eq!(signed, vec![2, 9]);
}

#[test]
fn value_reads_back() {
    assert_eq!(
        read_value(&[0, 0x00, 0x00, 0x80, 0x3f], 0),
        Ok((Value::F32(1.0f32.to_bits()), 5))
    );
    assert_eq!(read_value(&[1, 0xac, 0x02], 0), Ok((Value::U32(300), 3)));
    assert_eq!(read_value(&[2, 9], 0), Ok((Value::I32(-5), 2)));
    assert_eq!(read_value(&[3, 9], 0), Err(DecodeError::BadEnum));
    assert_eq!(read_value(&[0, 1, 2, 3], 0), Err(DecodeError::UnexpectedEnd));
    assert_eq!(read_value(&[1], 0), Err(DecodeError::UnexpectedEnd));
    assert_eq!(read_value(&[1, 1], 3), Err(DecodeError::UnexpectedEnd));
}

#[test]
fn payload_bytes_are_exact() {
    assert_eq!(encode_payload(&log(Severity::Info, "hi")), vec![1, 1, 2, b'h', b'i']);
    assert_eq!(encode_payload(&log(Severity::Debug, "")), vec![1, 0, 0]);
    assert_eq!(encode_payload(&log(Severity::Warn, "w")), vec![1, 2, 1, b'w']);
    assert_eq!(encode_payload(&log(Severity::Error, "e")), vec![1, 3, 1, b'e']);
    assert_eq!(
        encode_payload(&Package::Telemetry(vec![("a".to_string(), Value::U32(0))])),
        vec![0, 1, 1, b'a', 1, 0]
    );
    assert_eq!(encode_payload(&Package::Telemetry(vec![])), vec![0, 0]);
}

#[test]
fn payload_reads_back() {
    for package in [
        sample(),
        log(Severity::Debug, ""),
        log(Severity::Info, "sent report"),
        log(Severity::Warn, "naïve ☃"),
        log(Severity::Error, "x"),
        Package::Telemetry(vec![]),
    ] {
        assert_eq!(decode_payload(&encode_payload(&package)), Ok(package));
    }
}

#[test]
fn payload_may_be_followed_by_more_bytes() {
    assert_eq!(decode_payload(&[1, 1, 2, b'h', b'i', 0xff, 0xff]), Ok(log(Severity::Info, "hi")));
}

#[test]
fn every_way_to_fail_has_its_error() {
    assert_eq!(decode(&[5, 1]), Err(DecodeError::BadEncoding));
    assert_eq!(decode(&[1]), Err(DecodeError::UnexpectedEnd));
    assert_eq!(decode_payload(&[]), Err(DecodeError::UnexpectedEnd));
    assert_eq!(decode_payload(&[0, 2, 1, b'a', 1, 7]), Err(DecodeError::UnexpectedEnd));
    assert_eq!(decode_payload(&[0xff, 0xff, 0xff, 0xff, 0xff]), Err(DecodeError::BadVarint));
    assert_eq!(decode_payload(&[2]), Err(DecodeError::BadEnum));
    assert_eq!(decode_payload(&[1, 4, 0]), Err(DecodeError::BadEnum));
    assert_eq!(decode_payload(&[0, 1, 1, b'a', 3, 0]), Err(DecodeError::BadEnum));
    assert_eq!(decode_payload(&[1, 1, 2, 0xff, 0xfe]), Err(DecodeError::BadUtf8));
}

#[test]
fn errors_describe_themselves() {
    assert_eq!(DecodeError::BadEncoding.describe(), "frame is not a valid byte-stuffed record");
    assert_eq!(DecodeError::UnexpectedEnd.describe(), "frame ends before its message is complete");
    assert_eq!(DecodeError::BadVarint.describe(), "frame holds an integer that is out of range");
    assert_eq!(DecodeError::BadEnum.describe(), "frame names an unknown variant");
    assert_eq!(DecodeError::BadUtf8.describe(), "frame holds text that is not UTF-8");
}

#[test]
fn log_lines_carry_their_severity() {
    assert_eq!(
        LogRecord { severity: Severity::Debug, text: "a".to_string() }.line(),
        "[DEBUG] a"
    );
    assert_eq!(
        LogRecord { severity: Severity::Info, text: "sent report".to_string() }.line(),
        "[INFO] sent report"
    );
    assert_eq!(LogRecord { severity: Severity::Warn, text: String::new() }.line(), "[WARN] ");
    assert_eq!(LogRecord { severity: Severity::Error, text: "x".to_string() }.line(), "[ERROR] x");
}

#[test]
fn frame_bytes_are_exact() {
    assert_eq!(encode(&log(Severity::Info, "hi")), vec![6, 1, 1, 2, b'h', b'i', 0]);
    assert_eq!(
        encode(&Package::Telemetry(vec![("a".to_string(), Value::U32(0))])),
        vec![1, 5, 1, 1, b'a', 1, 1, 0]
    );
}

#[test]
fn frame_ends_in_its_only_zero() {
    for package in [sample(), log(Severity::Info, &"z".repeat(700)), Package::Telemetry(vec![])] {
        let frame = encode(&package);
        assert_eq!(frame.last(), Some(&0));
        assert!(frame[..frame.len() - 1].iter().all(|byte| *byte != 0));
    }
}

#[test]
fn frame_reads_back() {
    for package in [sample(), log(Severity::Info, &"z".repeat(700)), Package::Telemetry(vec![])] {
        let frame = encode(&package);
        assert_eq!(decode(&frame[..frame.len() - 1]), Ok(package));
    }
}

#[test]
fn frames_are_what_postcard_writes() {
    let mixed = postcard::to_stdvec_cobs(&(
        0u32, 3usize, "volt", 0u32, 3.3f32, "ctr", 1u32, 300u32, "t", 2u32, -5i32,
    ))
    .unwrap();
    assert_eq!(encode(&sample()), mixed);

    let floats = postcard::to_stdvec_cobs(&(
        0u32,
        vec![("gx".to_string(), (0u32, 0.5f32)), ("gy".to_string(), (0u32, -0.25f32))],
    ))
    .unwrap();
    let package = Package::Telemetry(vec![
        ("gx".to_string(), Value::F32(0.5f32.to_bits())),
        ("gy".to_string(), Value::F32((-0.25f32).to_bits())),
    ]);
    assert_eq!(encode(&package), floats);

    let long = "sent report ".repeat(60);
    let line = postcard::to_stdvec_cobs(&(1u32, 1u32, long.as_str())).unwrap();
    assert_eq!(encode(&log(Severity::Info, &long)), line);

    let extremes = postcard::to_stdvec_cobs(&(
        0u32, 4usize, "a", 1u32, u32::MAX, "b", 2u32, i32::MIN, "c", 2u32, i32::MAX, "d", 1u32,
        0u32,
    ))
    .unwrap();
    let package = Package::Telemetry(vec![
        ("a".to_string(), Value::U32(u32::MAX)),
        ("b".to_string(), Value::I32(i32::MIN)),
        ("c".to_string(), Value::I32(i32::MAX)),
        ("d".to_string(), Value::U32(0)),
    ]);
    assert_eq!(encode(&package), extremes);
}

#[test]
fn frames_are_what_postcard_reads() {
    let mut frame = encode(&sample());
    let read: (u32, usize, String, u32, f32, String, u32, u32, String, u32, i32) =
        postcard::from_bytes_cobs(&mut frame).unwrap();
    assert_eq!(
        read,
        (0, 3, "volt".to_string(), 0, 3.3f32, "ctr".to_string(), 1, 300, "t".to_string(), 2, -5)
    );

    let long = "é".repeat(400);
    let mut line = encode(&log(Severity::Error, &long));
    let read: (u32, u32, String) = postcard::from_bytes_cobs(&mut line).unwrap();
    assert_eq!(read, (1, 3, long));
}

#[test]
fn what_postcard_writes_is_read() {
    let frame = postcard::to_stdvec_cobs(&(1u32, 2u32, "battery low")).unwrap();
    assert_eq!(decode(&frame[..frame.len() - 1]), Ok(log(Severity::Warn, "battery low")));
    let zeros = vec![0u8; 300];
    let stuffed = postcard::to_stdvec_cobs(&zeros).unwrap();
    let mut payload = vec![0xac, 0x02];
    payload.extend_from_slice(&zeros);
    assert_eq!(unstuff_bytes(&stuffed[..stuffed.len() - 1]), Some(payload));
}
