//! Zero-byte stuffing. A payload is cut into blocks, each led by a code byte
//! that counts the block's bytes, itself included; a code below 255 also
//! stands for one zero byte of the payload that followed the block, unless
//! the block is the last. A block of 255 bytes is always followed by another
//! block, which may be a code byte alone. What comes out holds no zero byte,
//! so a zero can end a frame.

use vstd::prelude::*;

verus! {

/// The most payload bytes that one block carries.
pub const BLOCK: usize = 254;

/// The number of non-zero bytes at the front of `s`, counted up to `limit`.
pub open spec fn run_len(s: Seq<u8>, limit: nat) -> nat
    decreases limit,
{
    if limit == 0 || s.len() == 0 || s[0] == 0 {
        0
    } else {
        1 + run_len(s.skip(1), (limit - 1) as nat)
    }
}

/// The stuffed form of `payload`, without the zero that ends a frame.
pub open spec fn stuff(payload: Seq<u8>) -> Seq<u8>
    decreases payload.len(),
{
    let n = run_len(payload, BLOCK as nat);
    let block = seq![(n + 1) as u8] + payload.take(n as int);
    if n == BLOCK && BLOCK <= payload.len() {
        block + stuff(payload.skip(BLOCK as int))
    } else if n < BLOCK && n < payload.len() {
        block + stuff(payload.skip(n as int + 1))
    } else {
        block
    }
}

/// The payload that `span` is the stuffed form of, if its blocks fit it.
pub open spec fn unstuff(span: Seq<u8>) -> Option<Seq<u8>>
    decreases span.len(),
{
    if span.len() == 0 {
        Some(Seq::empty())
    } else {
        let code = span[0] as int;
        if code == 0 || code > span.len() {
            None
        } else {
            match unstuff(span.skip(code)) {
                None => None,
                Some(tail) => Some(
                    span.subrange(1, code) + (if code < 255 && code < span.len() {
                        seq![0u8]
                    } else {
                        Seq::empty()
                    }) + tail,
                ),
            }
        }
    }
}

/// A run is no longer than its limit or its sequence, holds no zero, and
/// stops short of the limit only at a zero or at the end.
pub proof fn lemma_run_len(s: Seq<u8>, limit: nat)
    ensures
        run_len(s, limit) <= limit,
        run_len(s, limit) <= s.len(),
        forall|i: int| 0 <= i < run_len(s, limit) ==> s[i] != 0,
        run_len(s, limit) < limit && run_len(s, limit) < s.len() ==> s[run_len(s, limit) as int]
            == 0,
    decreases limit,
{
    if !(limit == 0 || s.len() == 0 || s[0] == 0) {
        let rest = s.skip(1);
        lemma_run_len(rest, (limit - 1) as nat);
        assert forall|i: int| 0 <= i < run_len(s, limit) implies s[i] != 0 by {
            if i > 0 {
                assert(s[i] == rest[i - 1]);
            }
        }
        let n = run_len(rest, (limit - 1) as nat);
        if n + 1 < limit && n + 1 < s.len() {
            assert(s[n as int + 1] == rest[n as int]);
        }
    }
}

/// The stuffed form has at least its first code byte, and no zero byte.
pub proof fn lemma_stuff_no_zero(payload: Seq<u8>)
    ensures
        stuff(payload).len() >= 1,
        forall|i: int| 0 <= i < stuff(payload).len() ==> stuff(payload)[i] != 0,
    decreases payload.len(),
{
    let n = run_len(payload, BLOCK as nat);
    lemma_run_len(payload, BLOCK as nat);
    let block = seq![(n + 1) as u8] + payload.take(n as int);
    assert forall|i: int| 0 <= i < block.len() implies block[i] != 0 by {
        if i > 0 {
            assert(block[i] == payload[i - 1]);
        }
    }
    if n == BLOCK && BLOCK <= payload.len() {
        lemma_stuff_no_zero(payload.skip(BLOCK as int));
    } else if n < BLOCK && n < payload.len() {
        lemma_stuff_no_zero(payload.skip(n as int + 1));
    }
}

/// Unstuffing the stuffed form gives the payload back.
pub proof fn lemma_stuffing_round_trip(payload: Seq<u8>)
    ensures
        unstuff(stuff(payload)) == Some(payload),
    decreases payload.len(),
{
    let n = run_len(payload, BLOCK as nat);
    lemma_run_len(payload, BLOCK as nat);
    let head = payload.take(n as int);
    let block = seq![(n + 1) as u8] + head;
    let span = stuff(payload);
    let code = n as int + 1;
    if n == BLOCK && BLOCK <= payload.len() {
        let rest = payload.skip(BLOCK as int);
        lemma_stuffing_round_trip(rest);
        lemma_stuff_no_zero(rest);
        assert(span == block + stuff(rest));
        assert(span[0] == code);
        assert(span.skip(code) =~= stuff(rest));
        assert(span.subrange(1, code) =~= head);
        assert(head + Seq::<u8>::empty() + rest =~= payload);
        assert(unstuff(span) == Some(payload));
    } else if n < BLOCK && n < payload.len() {
        let rest = payload.skip(n as int + 1);
        lemma_stuffing_round_trip(rest);
        lemma_stuff_no_zero(rest);
        assert(span == block + stuff(rest));
        assert(span[0] == code);
        assert(span.skip(code) =~= stuff(rest));
        assert(span.subrange(1, code) =~= head);
        assert(head + seq![0u8] + rest =~= payload);
        assert(unstuff(span) == Some(payload));
    } else {
        assert(span == block);
        assert(span[0] == code);
        assert(span.skip(code) =~= Seq::<u8>::empty());
        assert(span.subrange(1, code) =~= head);
        assert(unstuff(Seq::<u8>::empty()) == Some(Seq::<u8>::empty()));
        assert(head + Seq::<u8>::empty() + Seq::<u8>::empty() =~= payload);
        assert(unstuff(span) == Some(payload));
    }
}

/// Counts the non-zero bytes of `payload` from `start` on, up to one block.
fn scan_run(payload: &[u8], start: usize) -> (n: usize)
    requires
        start <= payload.len(),
    ensures
        n == run_len(payload@.skip(start as int), BLOCK as nat),
        n <= BLOCK,
        start + n <= payload.len(),
{
    let ghost s = payload@.skip(start as int);
    let mut n: usize = 0;
    assert(s.skip(0) =~= s);
    while n < BLOCK && n < payload.len() - start && payload[start + n] != 0
        invariant
            start <= payload.len(),
            s == payload@.skip(start as int),
            n <= BLOCK,
            start + n <= payload.len(),
            run_len(s, BLOCK as nat) == n + run_len(s.skip(n as int), (BLOCK - n) as nat),
        decreases BLOCK - n,
    {
        assert(s.skip(n as int)[0] == payload[start + n]);
        assert(s.skip(n as int).skip(1) =~= s.skip(n + 1));
        n = n + 1;
    }
    proof {
        if n < BLOCK && n < payload.len() - start {
            assert(s.skip(n as int)[0] == payload[start + n]);
        }
    }
    n
}

/// Appends `bytes[from..to]` to `out`.
fn push_range(out: &mut Vec<u8>, bytes: &[u8], from: usize, to: usize)
    requires
        from <= to <= bytes.len(),
    ensures
        final(out)@ == old(out)@ + bytes@.subrange(from as int, to as int),
{
    let mut i: usize = from;
    while i < to
        invariant
            from <= i <= to <= bytes.len(),
            out@ == old(out)@ + bytes@.subrange(from as int, i as int),
        decreases to - i,
    {
        let ghost before = out@;
        out.push(bytes[i]);
        assert(out@ =~= old(out)@ + bytes@.subrange(from as int, i + 1));
        i = i + 1;
    }
    assert(out@ =~= old(out)@ + bytes@.subrange(from as int, to as int));
}

/// Stuffs `payload`. The result holds no zero byte.
pub fn stuff_bytes(payload: &[u8]) -> (out: Vec<u8>)
    ensures
        out@ == stuff(payload@),
{
    let mut out: Vec<u8> = Vec::new();
    let mut pos: usize = 0;
    let mut done = false;
    assert(payload@.skip(0) =~= payload@);
    assert(out@ + stuff(payload@) =~= stuff(payload@));
    while !done
        invariant
            pos <= payload.len(),
            !done ==> stuff(payload@) == out@ + stuff(payload@.skip(pos as int)),
            done ==> stuff(payload@) == out@,
        decreases payload.len() - pos + (if done { 0int } else { 1int }),
    {
        let ghost rest = payload@.skip(pos as int);
        let ghost before = out@;
        let n = scan_run(payload, pos);
        out.push((n + 1) as u8);
        push_range(&mut out, payload, pos, pos + n);
        assert(payload@.subrange(pos as int, pos + n) =~= rest.take(n as int));
        assert(out@ =~= before + (seq![(n + 1) as u8] + rest.take(n as int)));
        if n == BLOCK {
            assert(rest.skip(BLOCK as int) =~= payload@.skip(pos + BLOCK));
            pos = pos + BLOCK;
        } else if n < BLOCK && n < payload.len() - pos {
            assert(rest.skip(n + 1) =~= payload@.skip(pos + n + 1));
            pos = pos + n + 1;
        } else {
            done = true;
        }
    }
    out
}

/// Removes the stuffing from `span`, or returns `None` where a block does not
/// fit the span.
pub fn unstuff_bytes(span: &[u8]) -> (r: Option<Vec<u8>>)
    ensures
        match unstuff(span@) {
            Some(payload) => r matches Some(out) && out@ == payload,
            None => r is None,
        },
{
    let mut out: Vec<u8> = Vec::new();
    let mut pos: usize = 0;
    proof {
        assert(span@.skip(0) =~= span@);
        if let Some(tail) = unstuff(span@) {
            assert(out@ + tail =~= tail);
        }
    }
    while pos < span.len()
        invariant
            pos <= span.len(),
            unstuff(span@) == match unstuff(span@.skip(pos as int)) {
                Some(tail) => Some(out@ + tail),
                None => None,
            },
        decreases span.len() - pos,
    {
        let ghost rest = span@.skip(pos as int);
        let ghost before = out@;
        let code: usize = span[pos] as usize;
        assert(rest[0] == span[pos as int]);
        if code == 0 || code > span.len() - pos {
            return None;
        }
        push_range(&mut out, span, pos + 1, pos + code);
        assert(span@.subrange(pos + 1, pos + code) =~= rest.subrange(1, code as int));
        assert(rest.skip(code as int) =~= span@.skip(pos + code));
        pos = pos + code;
        if code < 255 && pos < span.len() {
            out.push(0);
        }
        proof {
            let gap = if code < 255 && code < rest.len() {
                seq![0u8]
            } else {
                Seq::<u8>::empty()
            };
            assert(out@ =~= before + rest.subrange(1, code as int) + gap);
            match unstuff(span@.skip(pos as int)) {
                Some(tail) => {
                    assert(before + (rest.subrange(1, code as int) + gap + tail) =~= out@ + tail);
                },
                None => {},
            }
        }
    }
    assert(out@ + Seq::<u8>::empty() =~= out@);
    Some(out)
}

} // verus!
