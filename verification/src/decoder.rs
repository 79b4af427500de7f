//! The frame decoder: bytes go in as the link delivers them, in chunks of any
//! size; decoded frames come out as soon as the zero that ends them has
//! arrived.

use vstd::prelude::*;
use crate::codec::{decode, decode_frame};
use crate::package::{DecodeError, Package, PackageView, outcome_view};

verus! {

/// The spans that `stream` completes, in order, when `pending` is what is
/// left of the bytes before it. A zero ends a span; a zero with nothing
/// pending is idle noise and ends nothing.
pub open spec fn frames_in(pending: Seq<u8>, stream: Seq<u8>) -> Seq<Seq<u8>>
    decreases stream.len(),
{
    if stream.len() == 0 {
        Seq::empty()
    } else if stream[0] != 0 {
        frames_in(pending.push(stream[0]), stream.skip(1))
    } else if pending.len() == 0 {
        frames_in(Seq::empty(), stream.skip(1))
    } else {
        seq![pending] + frames_in(Seq::empty(), stream.skip(1))
    }
}

/// What is still pending after `stream`: the bytes after its last zero.
pub open spec fn left_over(pending: Seq<u8>, stream: Seq<u8>) -> Seq<u8>
    decreases stream.len(),
{
    if stream.len() == 0 {
        pending
    } else if stream[0] != 0 {
        left_over(pending.push(stream[0]), stream.skip(1))
    } else {
        left_over(Seq::empty(), stream.skip(1))
    }
}

/// What each span decodes to.
pub open spec fn decoded(frames: Seq<Seq<u8>>) -> Seq<Result<PackageView, DecodeError>> {
    Seq::new(frames.len(), |i: int| decode_frame(frames[i]))
}

/// The outcomes of a feed, as contracts see them.
pub open spec fn outcomes_view(outcomes: Seq<Result<Package, DecodeError>>) -> Seq<
    Result<PackageView, DecodeError>,
> {
    Seq::new(outcomes.len(), |i: int| outcome_view(outcomes[i]))
}

/// The decode cursor: the bytes that have arrived and do not yet make up a
/// whole frame.
pub struct Decoder {
    cursor: Vec<u8>,
}

impl View for Decoder {
    type V = Seq<u8>;

    closed spec fn view(&self) -> Seq<u8> {
        self.cursor@
    }
}

impl Decoder {
    /// A decoder with nothing pending.
    pub fn new() -> (decoder: Decoder)
        ensures
            decoder@ == Seq::<u8>::empty(),
    {
        Decoder { cursor: Vec::new() }
    }

    /// Takes the next bytes of the stream. Returns, in order, what each frame
    /// that they complete decodes to: its message, or why it was discarded.
    pub fn feed(&mut self, bytes: &[u8]) -> (out: Vec<Result<Package, DecodeError>>)
        ensures
            final(self)@ == left_over(old(self)@, bytes@),
            outcomes_view(out@) == decoded(frames_in(old(self)@, bytes@)),
    {
        let mut out: Vec<Result<Package, DecodeError>> = Vec::new();
        let mut i: usize = 0;
        proof {
            assert(bytes@.skip(0) =~= bytes@);
            assert(outcomes_view(out@) + decoded(frames_in(self@, bytes@)) =~= decoded(
                frames_in(self@, bytes@),
            ));
        }
        while i < bytes.len()
            invariant
                i <= bytes.len(),
                left_over(old(self)@, bytes@) == left_over(self@, bytes@.skip(i as int)),
                decoded(frames_in(old(self)@, bytes@)) == outcomes_view(out@) + decoded(
                    frames_in(self@, bytes@.skip(i as int)),
                ),
            decreases bytes.len() - i,
        {
            let ghost rest = bytes@.skip(i as int);
            let ghost pending = self@;
            let ghost before = outcomes_view(out@);
            let byte = bytes[i];
            assert(rest[0] == byte);
            assert(rest.skip(1) =~= bytes@.skip(i + 1));
            if byte != 0 {
                self.cursor.push(byte);
            } else if self.cursor.len() > 0 {
                let outcome = decode(self.cursor.as_slice());
                let ghost seen = outcome_view(outcome);
                out.push(outcome);
                self.cursor.clear();
                proof {
                    let later = frames_in(Seq::empty(), bytes@.skip(i + 1));
                    assert(outcomes_view(out@) =~= before.push(seen));
                    assert(decoded(seq![pending] + later) =~= seq![seen] + decoded(later));
                    assert(before + (seq![seen] + decoded(later)) =~= outcomes_view(out@)
                        + decoded(later));
                }
            } else {
                assert(self@ =~= Seq::<u8>::empty());
            }
            i = i + 1;
        }
        proof {
            assert(outcomes_view(out@) + decoded(Seq::<Seq<u8>>::empty()) =~= outcomes_view(out@));
        }
        out
    }

    /// Forgets what is pending. A link that was lost and found again starts
    /// its framing over.
    pub fn reset(&mut self)
        ensures
            final(self)@ == Seq::<u8>::empty(),
    {
        self.cursor.clear();
    }

    /// The bytes that wait for the rest of their frame.
    pub fn pending(&self) -> (bytes: &[u8])
        ensures
            bytes@ == self@,
    {
        self.cursor.as_slice()
    }
}

} // verus!
