//! The payload of a frame: a tagged message in a compact binary form. Tags,
//! lengths and integers are variable-length integers, a float is its four
//! bytes least significant first, a text is its length and its UTF-8 bytes.

use vstd::prelude::*;
use vstd::bytes::{
    lemma_auto_spec_u32_to_from_le_bytes, spec_u32_from_le_bytes, spec_u32_to_le_bytes,
    u32_from_le_bytes, u32_to_le_bytes,
};
use vstd::slice::slice_subrange;
use vstd::utf8::{
    decode_utf8, encode_utf8, encode_utf8_decode_utf8, encode_utf8_valid_utf8, valid_utf8,
};
use crate::package::{
    DecodeError, LogRecord, Package, PackageView, Point, Severity, Value, points_view,
};
use crate::varint::{
    lemma_varint_cap_u32, lemma_varint_cap_u64, lemma_varint_round_trip, lemma_zigzag_round_trip,
    read_u32, read_u64, tail, take_u32, take_u64, unzigzag, varint_bytes, write_varint, zigzag,
    zigzag_decode, zigzag_encode,
};

verus! {

/// The tag of a severity on the wire.
pub open spec fn severity_tag(severity: Severity) -> nat {
    match severity {
        Severity::Debug => 0,
        Severity::Info => 1,
        Severity::Warn => 2,
        Severity::Error => 3,
    }
}

/// The bytes of a text: the number of its UTF-8 bytes, then those bytes.
pub open spec fn text_bytes(text: Seq<char>) -> Seq<u8> {
    varint_bytes(encode_utf8(text).len()) + encode_utf8(text)
}

/// The bytes of a sample: the tag of its type, then the number.
pub open spec fn value_bytes(value: Value) -> Seq<u8> {
    match value {
        Value::F32(bits) => varint_bytes(0) + spec_u32_to_le_bytes(bits),
        Value::U32(n) => varint_bytes(1) + varint_bytes(n as nat),
        Value::I32(n) => varint_bytes(2) + varint_bytes(zigzag(n as int)),
    }
}

/// The bytes of one channel: its name, then its sample.
pub open spec fn point_bytes(point: Point) -> Seq<u8> {
    text_bytes(point.0) + value_bytes(point.1)
}

/// The bytes of the channels, one after the other.
pub open spec fn points_bytes(points: Seq<Point>) -> Seq<u8>
    decreases points.len(),
{
    if points.len() == 0 {
        Seq::empty()
    } else {
        point_bytes(points[0]) + points_bytes(points.drop_first())
    }
}

/// The payload of a message.
pub open spec fn payload_bytes(package: PackageView) -> Seq<u8> {
    match package {
        PackageView::Telemetry(points) => varint_bytes(0) + varint_bytes(points.len())
            + points_bytes(points),
        PackageView::Log(severity, text) => varint_bytes(1) + varint_bytes(severity_tag(severity))
            + text_bytes(text),
    }
}

/// Reads a text from the front of `s`: the text and the bytes it took.
pub open spec fn take_text(s: Seq<u8>) -> Result<(Seq<char>, int), DecodeError> {
    match take_u64(s) {
        Err(error) => Err(error),
        Ok((len, used)) => {
            if used + len > s.len() {
                Err(DecodeError::UnexpectedEnd)
            } else if !valid_utf8(s.subrange(used, used + len)) {
                Err(DecodeError::BadUtf8)
            } else {
                Ok((decode_utf8(s.subrange(used, used + len)), used + len))
            }
        },
    }
}

/// Reads a sample from the front of `s`.
pub open spec fn take_value(s: Seq<u8>) -> Result<(Value, int), DecodeError> {
    match take_u32(s) {
        Err(error) => Err(error),
        Ok((tag, used)) => {
            if tag == 0 {
                if used + 4 > s.len() {
                    Err(DecodeError::UnexpectedEnd)
                } else {
                    Ok((Value::F32(spec_u32_from_le_bytes(s.subrange(used, used + 4))), used + 4))
                }
            } else if tag == 1 {
                match take_u32(s.skip(used)) {
                    Err(error) => Err(error),
                    Ok((n, more)) => Ok((Value::U32(n as u32), used + more)),
                }
            } else if tag == 2 {
                match take_u32(s.skip(used)) {
                    Err(error) => Err(error),
                    Ok((z, more)) => Ok((Value::I32(unzigzag(z) as i32), used + more)),
                }
            } else {
                Err(DecodeError::BadEnum)
            }
        },
    }
}

/// Reads one channel from the front of `s`.
pub open spec fn take_point(s: Seq<u8>) -> Result<(Point, int), DecodeError> {
    match take_text(s) {
        Err(error) => Err(error),
        Ok((name, used)) => match take_value(s.skip(used)) {
            Err(error) => Err(error),
            Ok((value, more)) => Ok(((name, value), used + more)),
        },
    }
}

/// Reads `count` channels from the front of `s`.
pub open spec fn take_points(s: Seq<u8>, count: nat) -> Result<(Seq<Point>, int), DecodeError>
    decreases count,
{
    if count == 0 {
        Ok((Seq::empty(), 0int))
    } else {
        match take_point(s) {
            Err(error) => Err(error),
            Ok((point, used)) => match take_points(s.skip(used), (count - 1) as nat) {
                Err(error) => Err(error),
                Ok((rest, more)) => Ok((seq![point] + rest, used + more)),
            },
        }
    }
}

/// Reads a severity from the front of `s`.
pub open spec fn take_severity(s: Seq<u8>) -> Result<(Severity, int), DecodeError> {
    match take_u32(s) {
        Err(error) => Err(error),
        Ok((tag, used)) => {
            if tag == 0 {
                Ok((Severity::Debug, used))
            } else if tag == 1 {
                Ok((Severity::Info, used))
            } else if tag == 2 {
                Ok((Severity::Warn, used))
            } else if tag == 3 {
                Ok((Severity::Error, used))
            } else {
                Err(DecodeError::BadEnum)
            }
        },
    }
}

/// The message that the payload `s` carries. Bytes after the message are
/// not looked at.
pub open spec fn parse_payload(s: Seq<u8>) -> Result<PackageView, DecodeError> {
    match take_u32(s) {
        Err(error) => Err(error),
        Ok((tag, used)) => {
            if tag == 0 {
                match take_u64(s.skip(used)) {
                    Err(error) => Err(error),
                    Ok((count, more)) => match take_points(s.skip(used + more), count) {
                        Err(error) => Err(error),
                        Ok((points, _)) => Ok(PackageView::Telemetry(points)),
                    },
                }
            } else if tag == 1 {
                match take_severity(s.skip(used)) {
                    Err(error) => Err(error),
                    Ok((severity, more)) => match take_text(s.skip(used + more)) {
                        Err(error) => Err(error),
                        Ok((text, _)) => Ok(PackageView::Log(severity, text)),
                    },
                }
            } else {
                Err(DecodeError::BadEnum)
            }
        },
    }
}

/// `std::str::from_utf8`: the bytes as a text where they are UTF-8, and
/// nothing where they are not. The text's own UTF-8 bytes are the bytes given.
#[verifier::external_body]
fn str_from_utf8(bytes: &[u8]) -> (text: Option<&str>)
    ensures
        text is Some <==> valid_utf8(bytes@),
        text matches Some(t) ==> encode_utf8(t@) == bytes@,
{
    std::str::from_utf8(bytes).ok()
}

/// Appends the bytes of `text`.
pub fn write_text(out: &mut Vec<u8>, text: &str)
    ensures
        final(out)@ == old(out)@ + text_bytes(text@),
        text_fits(text@),
{
    let raw = text.as_bytes();
    write_varint(out, raw.len() as u64);
    let ghost middle = out@;
    let mut i: usize = 0;
    while i < raw.len()
        invariant
            i <= raw.len(),
            out@ == middle + raw@.take(i as int),
        decreases raw.len() - i,
    {
        out.push(raw[i]);
        assert(out@ =~= middle + raw@.take(i + 1));
        i = i + 1;
    }
    assert(raw@.take(raw@.len() as int) =~= raw@);
    assert(out@ =~= old(out)@ + text_bytes(text@));
}

/// Appends the bytes of `value`.
pub fn write_value(out: &mut Vec<u8>, value: Value)
    ensures
        final(out)@ == old(out)@ + value_bytes(value),
{
    match value {
        Value::F32(bits) => {
            write_varint(out, 0);
            let ghost middle = out@;
            let raw = u32_to_le_bytes(bits);
            let mut i: usize = 0;
            while i < 4
                invariant
                    i <= 4,
                    raw@.len() == 4,
                    out@ == middle + raw@.take(i as int),
                decreases 4 - i,
            {
                out.push(raw[i]);
                assert(out@ =~= middle + raw@.take(i + 1));
                i = i + 1;
            }
            assert(raw@.take(4) =~= raw@);
            assert(out@ =~= old(out)@ + value_bytes(value));
        },
        Value::U32(n) => {
            write_varint(out, 1);
            write_varint(out, n as u64);
            assert(out@ =~= old(out)@ + value_bytes(value));
        },
        Value::I32(n) => {
            write_varint(out, 2);
            write_varint(out, zigzag_encode(n) as u64);
            assert(out@ =~= old(out)@ + value_bytes(value));
        },
    }
}

/// Appends the bytes of the channels, one after the other.
pub fn write_points(out: &mut Vec<u8>, points: &Vec<(String, Value)>)
    ensures
        final(out)@ == old(out)@ + points_bytes(points_view(points@)),
        forall|i: int| 0 <= i < points@.len() ==> text_fits(#[trigger] points_view(points@)[i].0),
{
    let ghost all = points_view(points@);
    let mut i: usize = 0;
    assert(all.skip(0) =~= all);
    while i < points.len()
        invariant
            i <= points.len(),
            all == points_view(points@),
            out@ + points_bytes(all.skip(i as int)) == old(out)@ + points_bytes(all),
            forall|k: int| 0 <= k < i ==> text_fits(#[trigger] all[k].0),
        decreases points.len() - i,
    {
        let ghost before = out@;
        let ghost left = all.skip(i as int);
        write_text(out, points[i].0.as_str());
        write_value(out, points[i].1);
        proof {
            assert(left[0] == (points@[i as int].0@, points@[i as int].1));
            assert(left.drop_first() =~= all.skip(i + 1));
            assert(out@ + points_bytes(all.skip(i + 1)) =~= before + points_bytes(left));
        }
        i = i + 1;
    }
    assert(out@ + points_bytes(all.skip(i as int)) =~= out@);
}

/// The payload of `package`.
pub fn encode_payload(package: &Package) -> (out: Vec<u8>)
    ensures
        out@ == payload_bytes(package@),
        fits(package@),
{
    let mut out: Vec<u8> = Vec::new();
    match package {
        Package::Telemetry(points) => {
            write_varint(&mut out, 0);
            write_varint(&mut out, points.len() as u64);
            write_points(&mut out, points);
            assert(out@ =~= payload_bytes(package@));
        },
        Package::Log(record) => {
            write_varint(&mut out, 1);
            let tag: u64 = match record.severity {
                Severity::Debug => 0,
                Severity::Info => 1,
                Severity::Warn => 2,
                Severity::Error => 3,
            };
            write_varint(&mut out, tag);
            write_text(&mut out, record.text.as_str());
            assert(out@ =~= payload_bytes(package@));
        },
    }
    out
}

/// Reads a text at `start`.
pub fn read_text(bytes: &[u8], start: usize) -> (r: Result<(String, usize), DecodeError>)
    ensures
        match take_text(tail(bytes@, start as int)) {
            Ok((text, used)) => r matches Ok((t, end)) && t@ == text && end == start + used
                && start < end <= bytes.len(),
            Err(error) => r matches Err(e) && e == error,
        },
{
    let ghost s = tail(bytes@, start as int);
    match read_u64(bytes, start) {
        Err(error) => Err(error),
        Ok((len, pos)) => {
            if len > (bytes.len() - pos) as u64 {
                Err(DecodeError::UnexpectedEnd)
            } else {
                let end = pos + len as usize;
                let raw = slice_subrange(bytes, pos, end);
                assert(raw@ =~= s.subrange(pos - start, pos - start + len));
                match str_from_utf8(raw) {
                    None => Err(DecodeError::BadUtf8),
                    Some(text) => {
                        proof {
                            encode_utf8_decode_utf8(text@);
                        }
                        Ok((text.to_owned(), end))
                    },
                }
            }
        },
    }
}

/// Reads a sample at `start`.
pub fn read_value(bytes: &[u8], start: usize) -> (r: Result<(Value, usize), DecodeError>)
    ensures
        match take_value(tail(bytes@, start as int)) {
            Ok((value, used)) => r matches Ok((v, end)) && v == value && end == start + used
                && start < end <= bytes.len(),
            Err(error) => r matches Err(e) && e == error,
        },
{
    let ghost s = tail(bytes@, start as int);
    match read_u32(bytes, start) {
        Err(error) => Err(error),
        Ok((tag, pos)) => {
            assert(s.skip(pos - start) =~= bytes@.skip(pos as int));
            if tag == 0 {
                if bytes.len() - pos < 4 {
                    Err(DecodeError::UnexpectedEnd)
                } else {
                    let raw = slice_subrange(bytes, pos, pos + 4);
                    assert(raw@ =~= s.subrange(pos - start, pos - start + 4));
                    Ok((Value::F32(u32_from_le_bytes(raw)), pos + 4))
                }
            } else if tag == 1 {
                match read_u32(bytes, pos) {
                    Err(error) => Err(error),
                    Ok((n, end)) => Ok((Value::U32(n), end)),
                }
            } else if tag == 2 {
                match read_u32(bytes, pos) {
                    Err(error) => Err(error),
                    Ok((z, end)) => Ok((Value::I32(zigzag_decode(z)), end)),
                }
            } else {
                Err(DecodeError::BadEnum)
            }
        },
    }
}

/// Reads `count` channels at `start`.
fn read_points(bytes: &[u8], start: usize, count: u64) -> (r: Result<
    (Vec<(String, Value)>, usize),
    DecodeError,
>)
    requires
        start <= bytes.len(),
    ensures
        match take_points(bytes@.skip(start as int), count as nat) {
            Ok((points, used)) => r matches Ok((v, end)) && points_view(v@) == points && end
                == start + used && start <= end <= bytes.len(),
            Err(error) => r matches Err(e) && e == error,
        },
{
    let ghost s = bytes@.skip(start as int);
    let mut points: Vec<(String, Value)> = Vec::new();
    let mut pos: usize = start;
    let mut i: u64 = 0;
    proof {
        assert(points_view(points@) =~= Seq::<Point>::empty());
        if let Ok((all, used)) = take_points(s, count as nat) {
            assert(points_view(points@) + all =~= all);
        }
    }
    while i < count
        invariant
            start <= pos <= bytes.len(),
            i <= count,
            s == bytes@.skip(start as int),
            take_points(s, count as nat) == match take_points(
                bytes@.skip(pos as int),
                (count - i) as nat,
            ) {
                Ok((rest, used)) => Ok::<(Seq<Point>, int), DecodeError>(
                    (points_view(points@) + rest, pos - start + used),
                ),
                Err(error) => Err(error),
            },
        decreases count - i,
    {
        let ghost here = bytes@.skip(pos as int);
        let ghost before = points_view(points@);
        match read_text(bytes, pos) {
            Err(error) => {
                return Err(error);
            },
            Ok((name, middle)) => {
                assert(here.skip(middle - pos) =~= bytes@.skip(middle as int));
                match read_value(bytes, middle) {
                    Err(error) => {
                        return Err(error);
                    },
                    Ok((value, end)) => {
                        let ghost point = (name@, value);
                        points.push((name, value));
                        proof {
                            assert(here.skip(end - pos) =~= bytes@.skip(end as int));
                            assert(points_view(points@) =~= before.push(point));
                            if let Ok((rest, used)) = take_points(
                                bytes@.skip(end as int),
                                (count - i - 1) as nat,
                            ) {
                                assert(before + (seq![point] + rest) =~= points_view(points@)
                                    + rest);
                            }
                        }
                        pos = end;
                        i = i + 1;
                    },
                }
            },
        }
    }
    proof {
        assert(points_view(points@) + Seq::<Point>::empty() =~= points_view(points@));
    }
    Ok((points, pos))
}

/// The message that the payload `bytes` carries.
pub fn decode_payload(bytes: &[u8]) -> (r: Result<Package, DecodeError>)
    ensures
        match parse_payload(bytes@) {
            Ok(package) => r matches Ok(p) && p@ == package,
            Err(error) => r matches Err(e) && e == error,
        },
{
    assert(bytes@.skip(0) =~= bytes@);
    match read_u32(bytes, 0) {
        Err(error) => Err(error),
        Ok((tag, pos)) => {
            if tag == 0 {
                match read_u64(bytes, pos) {
                    Err(error) => Err(error),
                    Ok((count, middle)) => match read_points(bytes, middle, count) {
                        Err(error) => Err(error),
                        Ok((points, _)) => Ok(Package::Telemetry(points)),
                    },
                }
            } else if tag == 1 {
                match read_u32(bytes, pos) {
                    Err(error) => Err(error),
                    Ok((level, middle)) => {
                        let severity = if level == 0 {
                            Severity::Debug
                        } else if level == 1 {
                            Severity::Info
                        } else if level == 2 {
                            Severity::Warn
                        } else if level == 3 {
                            Severity::Error
                        } else {
                            return Err(DecodeError::BadEnum);
                        };
                        match read_text(bytes, middle) {
                            Err(error) => Err(error),
                            Ok((text, _)) => Ok(Package::Log(LogRecord { severity, text })),
                        }
                    },
                }
            } else {
                Err(DecodeError::BadEnum)
            }
        },
    }
}

/// A text that the wire can carry: its UTF-8 bytes can be counted in 64 bits.
pub open spec fn text_fits(text: Seq<char>) -> bool {
    encode_utf8(text).len() <= u64::MAX
}

/// A message that the wire can carry: every length in it can be counted in
/// 64 bits. Every [`Package`] that was encoded is one.
pub open spec fn fits(package: PackageView) -> bool {
    match package {
        PackageView::Telemetry(points) => points.len() <= u64::MAX && forall|i: int|
            0 <= i < points.len() ==> text_fits(#[trigger] points[i].0),
        PackageView::Log(_, text) => text_fits(text),
    }
}

/// A text is read back as it was written, whatever follows it.
pub proof fn lemma_text_round_trip(text: Seq<char>, rest: Seq<u8>)
    requires
        text_fits(text),
    ensures
        take_text(text_bytes(text) + rest) == Ok::<(Seq<char>, int), DecodeError>(
            (text, text_bytes(text).len() as int),
        ),
{
    let raw = encode_utf8(text);
    let head = varint_bytes(raw.len());
    let s = text_bytes(text) + rest;
    lemma_varint_cap_u64();
    lemma_varint_round_trip(raw.len(), raw + rest, 10, 0x01);
    assert(s =~= head + (raw + rest));
    assert(s.subrange(head.len() as int, (head.len() + raw.len()) as int) =~= raw);
    encode_utf8_valid_utf8(text);
    encode_utf8_decode_utf8(text);
}

/// A sample is read back as it was written, whatever follows it.
pub proof fn lemma_value_round_trip(value: Value, rest: Seq<u8>)
    ensures
        take_value(value_bytes(value) + rest) == Ok::<(Value, int), DecodeError>(
            (value, value_bytes(value).len() as int),
        ),
{
    let s = value_bytes(value) + rest;
    lemma_varint_cap_u32();
    match value {
        Value::F32(bits) => {
            let raw = spec_u32_to_le_bytes(bits);
            lemma_auto_spec_u32_to_from_le_bytes();
            lemma_varint_round_trip(0, raw + rest, 5, 0x0f);
            assert(s =~= varint_bytes(0) + (raw + rest));
            assert(s.subrange(1, 5) =~= raw);
        },
        Value::U32(n) => {
            let raw = varint_bytes(n as nat);
            lemma_varint_round_trip(1, raw + rest, 5, 0x0f);
            lemma_varint_round_trip(n as nat, rest, 5, 0x0f);
            assert(s =~= varint_bytes(1) + (raw + rest));
            assert(s.skip(1) =~= raw + rest);
        },
        Value::I32(n) => {
            let raw = varint_bytes(zigzag(n as int));
            lemma_zigzag_round_trip(n as int);
            lemma_varint_round_trip(2, raw + rest, 5, 0x0f);
            lemma_varint_round_trip(zigzag(n as int), rest, 5, 0x0f);
            assert(s =~= varint_bytes(2) + (raw + rest));
            assert(s.skip(1) =~= raw + rest);
        },
    }
}

/// Channels are read back as they were written, whatever follows them.
pub proof fn lemma_points_round_trip(points: Seq<Point>, rest: Seq<u8>)
    requires
        forall|i: int| 0 <= i < points.len() ==> text_fits(#[trigger] points[i].0),
    ensures
        take_points(points_bytes(points) + rest, points.len()) == Ok::<
            (Seq<Point>, int),
            DecodeError,
        >((points, points_bytes(points).len() as int)),
    decreases points.len(),
{
    let s = points_bytes(points) + rest;
    if points.len() == 0 {
        assert(points =~= Seq::<Point>::empty());
    } else {
        let first = points[0];
        let others = points.drop_first();
        let name = text_bytes(first.0);
        let sample = value_bytes(first.1);
        let tail = points_bytes(others) + rest;
        assert(text_fits(first.0));
        assert forall|i: int| 0 <= i < others.len() implies text_fits(#[trigger] others[i].0) by {
            assert(others[i] == points[i + 1]);
        }
        lemma_text_round_trip(first.0, sample + tail);
        lemma_value_round_trip(first.1, tail);
        lemma_points_round_trip(others, rest);
        assert(s =~= name + (sample + tail));
        assert(s.skip(name.len() as int) =~= sample + tail);
        assert(s.skip((name.len() + sample.len()) as int) =~= tail);
        assert(take_point(s) == Ok::<(Point, int), DecodeError>(
            (first, (name.len() + sample.len()) as int),
        ));
        assert(seq![first] + others =~= points);
        assert(take_points(tail, others.len()) == Ok::<(Seq<Point>, int), DecodeError>(
            (others, points_bytes(others).len() as int),
        ));
        assert(points_bytes(points).len() == name.len() + sample.len() + points_bytes(
            others,
        ).len());
    }
}

/// A message is read back from its payload as it was written.
pub proof fn lemma_payload_round_trip(package: PackageView)
    requires
        fits(package),
    ensures
        parse_payload(payload_bytes(package)) == Ok::<PackageView, DecodeError>(package),
{
    let s = payload_bytes(package);
    lemma_varint_cap_u32();
    lemma_varint_cap_u64();
    match package {
        PackageView::Telemetry(points) => {
            let count = varint_bytes(points.len());
            let body = points_bytes(points);
            lemma_varint_round_trip(0, count + body, 5, 0x0f);
            lemma_varint_round_trip(points.len(), body, 10, 0x01);
            lemma_points_round_trip(points, Seq::empty());
            assert(s =~= varint_bytes(0) + (count + body));
            assert(s.skip(1) =~= count + body);
            assert(s.skip(1 + count.len() as int) =~= body + Seq::<u8>::empty());
        },
        PackageView::Log(severity, text) => {
            let level = varint_bytes(severity_tag(severity));
            let body = text_bytes(text);
            lemma_varint_round_trip(1, level + body, 5, 0x0f);
            lemma_varint_round_trip(severity_tag(severity), body, 5, 0x0f);
            lemma_text_round_trip(text, Seq::empty());
            assert(s =~= varint_bytes(1) + (level + body));
            assert(s.skip(1) =~= level + body);
            assert(s.skip(1 + level.len() as int) =~= body + Seq::<u8>::empty());
        },
    }
}

} // verus!
