//! What holds of the frame decoder on every stream: the way the stream is
//! cut into reads does not matter, idle zeros yield nothing, a frame comes
//! back as the message that was encoded, and garbage before a frame costs
//! only the garbage.

use vstd::prelude::*;
use crate::codec::{frame_bytes, lemma_span_round_trip, span_bytes};
use crate::decoder::{decoded, frames_in, left_over};
use crate::package::{DecodeError, PackageView};
use crate::payload::fits;

verus! {

/// The chunks of a stream, one after the other.
pub open spec fn join(chunks: Seq<Seq<u8>>) -> Seq<u8>
    decreases chunks.len(),
{
    if chunks.len() == 0 {
        Seq::empty()
    } else {
        chunks[0] + join(chunks.drop_first())
    }
}

/// The spans completed by feeding the chunks one by one.
pub open spec fn frames_in_chunks(pending: Seq<u8>, chunks: Seq<Seq<u8>>) -> Seq<Seq<u8>>
    decreases chunks.len(),
{
    if chunks.len() == 0 {
        Seq::empty()
    } else {
        frames_in(pending, chunks[0]) + frames_in_chunks(
            left_over(pending, chunks[0]),
            chunks.drop_first(),
        )
    }
}

/// What is pending after feeding the chunks one by one.
pub open spec fn left_over_chunks(pending: Seq<u8>, chunks: Seq<Seq<u8>>) -> Seq<u8>
    decreases chunks.len(),
{
    if chunks.len() == 0 {
        pending
    } else {
        left_over_chunks(left_over(pending, chunks[0]), chunks.drop_first())
    }
}

/// No byte of `s` is zero.
pub open spec fn zero_free(s: Seq<u8>) -> bool {
    forall|i: int| 0 <= i < s.len() ==> s[i] != 0
}

/// Every byte of `s` is zero.
pub open spec fn all_zero(s: Seq<u8>) -> bool {
    forall|i: int| 0 <= i < s.len() ==> s[i] == 0
}

/// Feeding a stream in two reads gives what feeding it in one read gives.
pub proof fn lemma_two_reads(pending: Seq<u8>, first: Seq<u8>, second: Seq<u8>)
    ensures
        frames_in(pending, first + second) == frames_in(pending, first) + frames_in(
            left_over(pending, first),
            second,
        ),
        left_over(pending, first + second) == left_over(left_over(pending, first), second),
    decreases first.len(),
{
    let whole = first + second;
    if first.len() == 0 {
        assert(whole =~= second);
        assert(frames_in(pending, first) + frames_in(pending, second) =~= frames_in(
            pending,
            second,
        ));
    } else {
        assert(whole[0] == first[0]);
        assert(whole.skip(1) =~= first.skip(1) + second);
        if first[0] != 0 {
            lemma_two_reads(pending.push(first[0]), first.skip(1), second);
        } else {
            lemma_two_reads(Seq::empty(), first.skip(1), second);
            let early = frames_in(Seq::empty(), first.skip(1));
            let late = frames_in(left_over(Seq::empty(), first.skip(1)), second);
            if pending.len() != 0 {
                assert(seq![pending] + (early + late) =~= (seq![pending] + early) + late);
            }
        }
    }
}

/// Feeding a stream in any number of reads gives what feeding it in one read
/// gives.
pub proof fn lemma_many_reads(pending: Seq<u8>, chunks: Seq<Seq<u8>>)
    ensures
        frames_in_chunks(pending, chunks) == frames_in(pending, join(chunks)),
        left_over_chunks(pending, chunks) == left_over(pending, join(chunks)),
    decreases chunks.len(),
{
    if chunks.len() != 0 {
        lemma_many_reads(left_over(pending, chunks[0]), chunks.drop_first());
        lemma_two_reads(pending, chunks[0], join(chunks.drop_first()));
    }
}

/// Bytes without a zero complete nothing and are all kept.
pub proof fn lemma_no_terminator(pending: Seq<u8>, stream: Seq<u8>)
    requires
        zero_free(stream),
    ensures
        frames_in(pending, stream) == Seq::<Seq<u8>>::empty(),
        left_over(pending, stream) == pending + stream,
    decreases stream.len(),
{
    if stream.len() == 0 {
        assert(pending + stream =~= pending);
    } else {
        assert(stream[0] != 0);
        assert forall|i: int| 0 <= i < stream.skip(1).len() implies stream.skip(1)[i] != 0 by {
            assert(stream.skip(1)[i] == stream[i + 1]);
        }
        lemma_no_terminator(pending.push(stream[0]), stream.skip(1));
        assert(pending.push(stream[0]) + stream.skip(1) =~= pending + stream);
    }
}

/// A zero completes what is pending, if anything is, and leaves nothing.
pub proof fn lemma_terminator(pending: Seq<u8>)
    ensures
        frames_in(pending, seq![0u8]) == if pending.len() == 0 {
            Seq::<Seq<u8>>::empty()
        } else {
            seq![pending]
        },
        left_over(pending, seq![0u8]) == Seq::<u8>::empty(),
{
    let stream = seq![0u8];
    assert(stream.skip(1) =~= Seq::<u8>::empty());
    assert(frames_in(Seq::empty(), stream.skip(1)) == Seq::<Seq<u8>>::empty());
    assert(left_over(Seq::empty(), stream.skip(1)) == Seq::<u8>::empty());
    assert(seq![pending] + Seq::<Seq<u8>>::empty() =~= seq![pending]);
}

/// A stream of zeros alone yields no frame and leaves nothing pending.
pub proof fn lemma_idle_line(stream: Seq<u8>)
    requires
        all_zero(stream),
    ensures
        frames_in(Seq::empty(), stream) == Seq::<Seq<u8>>::empty(),
        left_over(Seq::empty(), stream) == Seq::<u8>::empty(),
    decreases stream.len(),
{
    if stream.len() != 0 {
        assert(stream[0] == 0);
        assert forall|i: int| 0 <= i < stream.skip(1).len() implies stream.skip(1)[i] == 0 by {
            assert(stream.skip(1)[i] == stream[i + 1]);
        }
        lemma_idle_line(stream.skip(1));
    }
}

/// A whole frame, fed to a decoder with `pending` bytes that end in no frame
/// of their own, completes one span: the pending bytes and the frame's span.
proof fn lemma_one_frame(pending: Seq<u8>, package: PackageView)
    requires
        fits(package),
    ensures
        frames_in(pending, frame_bytes(package)) == seq![pending + span_bytes(package)],
        left_over(pending, frame_bytes(package)) == Seq::<u8>::empty(),
{
    let span = span_bytes(package);
    lemma_span_round_trip(package);
    assert(frame_bytes(package) =~= span + seq![0u8]);
    lemma_two_reads(pending, span, seq![0u8]);
    lemma_no_terminator(pending, span);
    lemma_terminator(pending + span);
    assert(Seq::<Seq<u8>>::empty() + seq![pending + span] =~= seq![pending + span]);
}

/// Round trip: the frame of a message, fed to a fresh decoder, yields that
/// message and nothing else, and leaves nothing pending.
pub proof fn lemma_round_trip(package: PackageView)
    requires
        fits(package),
    ensures
        decoded(frames_in(Seq::empty(), frame_bytes(package))) == seq![
            Ok::<PackageView, DecodeError>(package),
        ],
        left_over(Seq::empty(), frame_bytes(package)) == Seq::<u8>::empty(),
{
    let span = span_bytes(package);
    lemma_one_frame(Seq::empty(), package);
    lemma_span_round_trip(package);
    assert(Seq::<u8>::empty() + span =~= span);
    assert(decoded(seq![span]) =~= seq![Ok::<PackageView, DecodeError>(package)]);
}

/// Resynchronisation: whatever bytes come first, once a zero has ended them
/// the frame that follows is decoded to its message, as the last outcome,
/// and nothing is left pending. What came out of the bytes before the frame
/// is what would have come out of them alone.
pub proof fn lemma_resynchronises(pending: Seq<u8>, junk: Seq<u8>, package: PackageView)
    requires
        fits(package),
    ensures
        decoded(frames_in(pending, junk.push(0u8) + frame_bytes(package))) == decoded(
            frames_in(pending, junk.push(0u8)),
        ).push(Ok::<PackageView, DecodeError>(package)),
        left_over(pending, junk.push(0u8) + frame_bytes(package)) == Seq::<u8>::empty(),
{
    let span = span_bytes(package);
    let noise = junk.push(0u8);
    assert(noise =~= junk + seq![0u8]);
    lemma_two_reads(pending, junk, seq![0u8]);
    lemma_terminator(left_over(pending, junk));
    lemma_two_reads(pending, noise, frame_bytes(package));
    lemma_one_frame(Seq::empty(), package);
    lemma_span_round_trip(package);
    assert(Seq::<u8>::empty() + span =~= span);
    let early = frames_in(pending, noise);
    assert(decoded(early + seq![span]) =~= decoded(early).push(
        Ok::<PackageView, DecodeError>(package),
    ));
}

/// A stream is what came before its last chunk, followed by that chunk.
proof fn lemma_join_last(chunks: Seq<Seq<u8>>)
    requires
        chunks.len() >= 1,
    ensures
        join(chunks) == join(chunks.drop_last()) + chunks.last(),
    decreases chunks.len(),
{
    if chunks.len() == 1 {
        assert(chunks.drop_first() =~= Seq::<Seq<u8>>::empty());
        assert(chunks.drop_last() =~= Seq::<Seq<u8>>::empty());
        assert(join(chunks.drop_first()) =~= Seq::<u8>::empty());
        assert(join(chunks) =~= Seq::<u8>::empty() + chunks.last());
    } else {
        let tail = chunks.drop_first();
        lemma_join_last(tail);
        assert(tail.drop_last() =~= chunks.drop_last().drop_first());
        assert(tail.last() == chunks.last());
        assert(chunks.drop_last()[0] == chunks[0]);
        assert(chunks[0] + (join(tail.drop_last()) + tail.last()) =~= (chunks[0] + join(
            tail.drop_last(),
        )) + tail.last());
    }
}

/// Partial reads: when the bytes of one frame arrive in several reads, the
/// last of them not empty, nothing comes out before the last read, and the
/// last read yields the message and leaves nothing pending.
pub proof fn lemma_partial_reads(package: PackageView, chunks: Seq<Seq<u8>>)
    requires
        fits(package),
        chunks.len() >= 1,
        chunks.last().len() >= 1,
        join(chunks) == frame_bytes(package),
    ensures
        frames_in_chunks(Seq::empty(), chunks.drop_last()) == Seq::<Seq<u8>>::empty(),
        decoded(
            frames_in(left_over_chunks(Seq::empty(), chunks.drop_last()), chunks.last()),
        ) == seq![Ok::<PackageView, DecodeError>(package)],
        left_over(left_over_chunks(Seq::empty(), chunks.drop_last()), chunks.last())
            == Seq::<u8>::empty(),
{
    let span = span_bytes(package);
    let frame = frame_bytes(package);
    let early = join(chunks.drop_last());
    let last = chunks.last();
    lemma_join_last(chunks);
    lemma_span_round_trip(package);
    assert(frame == early + last);
    assert(early.len() < frame.len());
    assert forall|i: int| 0 <= i < early.len() implies early[i] != 0 by {
        assert(early[i] == frame[i]);
        assert(frame[i] == span[i]);
    }
    lemma_no_terminator(Seq::empty(), early);
    lemma_many_reads(Seq::empty(), chunks.drop_last());
    lemma_two_reads(Seq::empty(), early, last);
    lemma_round_trip(package);
    let late = frames_in(left_over(Seq::empty(), early), last);
    assert(Seq::<Seq<u8>>::empty() + late =~= late);
}

/// Back to back: two frames in one read yield their two messages, in the
/// order of arrival, and leave nothing pending.
pub proof fn lemma_back_to_back(first: PackageView, second: PackageView)
    requires
        fits(first),
        fits(second),
    ensures
        decoded(frames_in(Seq::empty(), frame_bytes(first) + frame_bytes(second))) == seq![
            Ok::<PackageView, DecodeError>(first),
            Ok::<PackageView, DecodeError>(second),
        ],
        left_over(Seq::empty(), frame_bytes(first) + frame_bytes(second)) == Seq::<u8>::empty(),
{
    lemma_two_reads(Seq::empty(), frame_bytes(first), frame_bytes(second));
    lemma_one_frame(Seq::empty(), first);
    lemma_one_frame(Seq::empty(), second);
    lemma_span_round_trip(first);
    lemma_span_round_trip(second);
    let a = span_bytes(first);
    let b = span_bytes(second);
    assert(Seq::<u8>::empty() + a =~= a);
    assert(Seq::<u8>::empty() + b =~= b);
    assert(decoded(seq![a] + seq![b]) =~= seq![
        Ok::<PackageView, DecodeError>(first),
        Ok::<PackageView, DecodeError>(second),
    ]);
}

/// The cursor is consumed from the front only: what is pending after a read
/// is the end of what was pending before it followed by the bytes read, and
/// it holds no zero if what was pending held none.
pub proof fn lemma_cursor_is_suffix(pending: Seq<u8>, stream: Seq<u8>)
    ensures
        exists|cut: int|
            0 <= cut <= (pending + stream).len() && left_over(pending, stream) == (pending
                + stream).skip(cut),
        zero_free(pending) ==> zero_free(left_over(pending, stream)),
    decreases stream.len(),
{
    let whole = pending + stream;
    if stream.len() == 0 {
        assert(whole.skip(0) =~= pending);
    } else if stream[0] != 0 {
        let grown = pending.push(stream[0]);
        lemma_cursor_is_suffix(grown, stream.skip(1));
        assert(grown + stream.skip(1) =~= whole);
    } else {
        lemma_cursor_is_suffix(Seq::empty(), stream.skip(1));
        let cut = choose|cut: int|
            0 <= cut <= (Seq::<u8>::empty() + stream.skip(1)).len() && left_over(
                Seq::empty(),
                stream.skip(1),
            ) == (Seq::<u8>::empty() + stream.skip(1)).skip(cut);
        assert(Seq::<u8>::empty() + stream.skip(1) =~= stream.skip(1));
        assert(stream.skip(1).skip(cut) =~= whole.skip(pending.len() + 1 + cut));
    }
}

} // verus!
