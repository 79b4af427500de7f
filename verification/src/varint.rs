//! Variable-length integers: seven bits to the byte, least significant group
//! first, the top bit of a byte set while more bytes follow.

use vstd::prelude::*;
use crate::package::DecodeError;

verus! {

/// The bytes that carry `value`.
pub open spec fn varint_bytes(value: nat) -> Seq<u8>
    decreases value,
{
    if value < 128 {
        seq![value as u8]
    } else {
        seq![(value % 128 + 128) as u8] + varint_bytes(value / 128)
    }
}

/// One more than the largest value that `room` bytes can carry when the last
/// of them may hold at most `top`.
pub open spec fn varint_cap(room: nat, top: u8) -> nat
    decreases room,
{
    if room == 0 {
        0
    } else if room == 1 {
        top as nat + 1
    } else {
        128 * varint_cap((room - 1) as nat, top)
    }
}

/// Reads one integer from the front of `s`: the value and the number of bytes
/// it took. At most `room` bytes are read, and the last of `room` bytes may
/// hold at most `top`.
pub open spec fn take_varint(s: Seq<u8>, room: nat, top: u8) -> Result<(nat, int), DecodeError>
    decreases room,
{
    if room == 0 {
        Err(DecodeError::BadVarint)
    } else if s.len() == 0 {
        Err(DecodeError::UnexpectedEnd)
    } else if s[0] < 128 {
        if room == 1 && s[0] > top {
            Err(DecodeError::BadVarint)
        } else {
            Ok((s[0] as nat, 1int))
        }
    } else {
        match take_varint(s.skip(1), (room - 1) as nat, top) {
            Ok((high, used)) => Ok(((s[0] - 128) as nat + 128 * high, used + 1)),
            Err(error) => Err(error),
        }
    }
}

/// What stands in `bytes` from `start` on: nothing, if `start` lies past the
/// end.
pub open spec fn tail(bytes: Seq<u8>, start: int) -> Seq<u8> {
    if 0 <= start <= bytes.len() {
        bytes.skip(start)
    } else {
        Seq::empty()
    }
}

/// A 32-bit value: five bytes at most, four bits in the fifth.
pub open spec fn take_u32(s: Seq<u8>) -> Result<(nat, int), DecodeError> {
    take_varint(s, 5, 0x0f)
}

/// A 64-bit value: ten bytes at most, one bit in the tenth.
pub open spec fn take_u64(s: Seq<u8>) -> Result<(nat, int), DecodeError> {
    take_varint(s, 10, 0x01)
}

/// The unsigned number that stands for `n`: 0, -1, 1, -2, 2 become 0, 1, 2, 3, 4.
pub open spec fn zigzag(n: int) -> nat {
    if n >= 0 {
        (2 * n) as nat
    } else {
        (-2 * n - 1) as nat
    }
}

/// The signed number that `z` stands for.
pub open spec fn unzigzag(z: nat) -> int {
    if z % 2 == 0 {
        z as int / 2
    } else {
        -(z as int / 2) - 1
    }
}

/// A signed number comes back from the unsigned number that stands for it.
pub proof fn lemma_zigzag_round_trip(n: int)
    ensures
        unzigzag(zigzag(n)) == n,
{
}

/// Five bytes with four bits in the fifth carry exactly the 32-bit values.
pub proof fn lemma_varint_cap_u32()
    ensures
        varint_cap(5, 0x0f) == 0x1_0000_0000,
{
    reveal_with_fuel(varint_cap, 6);
}

/// Ten bytes with one bit in the tenth carry exactly the 64-bit values.
pub proof fn lemma_varint_cap_u64()
    ensures
        varint_cap(10, 0x01) == 0x1_0000_0000_0000_0000,
{
    reveal_with_fuel(varint_cap, 11);
}

/// One byte or more can carry the value zero.
proof fn lemma_varint_cap_positive(room: nat, top: u8)
    requires
        room >= 1,
    ensures
        varint_cap(room, top) >= 1,
    decreases room,
{
    if room > 1 {
        lemma_varint_cap_positive((room - 1) as nat, top);
    }
}

/// What was read fits the bytes that were allowed, and lies inside `s`.
pub proof fn lemma_take_varint_bounds(s: Seq<u8>, room: nat, top: u8)
    requires
        top < 128,
    ensures
        take_varint(s, room, top) matches Ok((value, used)) ==> value < varint_cap(room, top) && 1
            <= used <= s.len() && used <= room,
    decreases room,
{
    if room > 1 {
        lemma_varint_cap_positive((room - 1) as nat, top);
    }
    if room != 0 && s.len() != 0 && s[0] >= 128 {
        lemma_take_varint_bounds(s.skip(1), (room - 1) as nat, top);
    }
}

/// Reading back what was written gives the value, whatever follows it.
pub proof fn lemma_varint_round_trip(value: nat, rest: Seq<u8>, room: nat, top: u8)
    requires
        top < 128,
        value < varint_cap(room, top),
    ensures
        take_varint(varint_bytes(value) + rest, room, top) == Ok::<(nat, int), DecodeError>(
            (value, varint_bytes(value).len() as int),
        ),
    decreases value,
{
    let s = varint_bytes(value) + rest;
    if value >= 128 {
        assert(s.skip(1) =~= varint_bytes(value / 128) + rest);
        lemma_varint_round_trip(value / 128, rest, (room - 1) as nat, top);
    }
}

/// Reads one integer at `start`.
fn read_varint(bytes: &[u8], start: usize, room: u8, top: u8) -> (r: Result<
    (u64, usize),
    DecodeError,
>)
    requires
        start <= bytes.len(),
        top < 128,
        varint_cap(room as nat, top) <= 0x1_0000_0000_0000_0000,
    ensures
        match take_varint(bytes@.skip(start as int), room as nat, top) {
            Ok((value, used)) => r matches Ok((v, end)) && v == value && end == start + used
                && start < end <= bytes.len() && value < varint_cap(room as nat, top),
            Err(error) => r matches Err(e) && e == error,
        },
    decreases room,
{
    let ghost s = bytes@.skip(start as int);
    proof {
        lemma_take_varint_bounds(s, room as nat, top);
    }
    if room == 0 {
        Err(DecodeError::BadVarint)
    } else if start >= bytes.len() {
        Err(DecodeError::UnexpectedEnd)
    } else {
        let byte = bytes[start];
        if byte < 128 {
            if room == 1 && byte > top {
                Err(DecodeError::BadVarint)
            } else {
                Ok((byte as u64, start + 1))
            }
        } else {
            assert(s.skip(1) =~= bytes@.skip(start + 1));
            match read_varint(bytes, start + 1, room - 1, top) {
                Ok((high, end)) => Ok(((byte - 128) as u64 + 128 * high, end)),
                Err(error) => Err(error),
            }
        }
    }
}

/// Reads one 32-bit integer at `start`.
pub fn read_u32(bytes: &[u8], start: usize) -> (r: Result<(u32, usize), DecodeError>)
    ensures
        match take_u32(tail(bytes@, start as int)) {
            Ok((value, used)) => r matches Ok((v, end)) && v == value && end == start + used
                && start < end <= bytes.len(),
            Err(error) => r matches Err(e) && e == error,
        },
{
    proof {
        lemma_varint_cap_u32();
    }
    if start > bytes.len() {
        return Err(DecodeError::UnexpectedEnd);
    }
    match read_varint(bytes, start, 5, 0x0f) {
        Ok((value, end)) => Ok((value as u32, end)),
        Err(error) => Err(error),
    }
}

/// Reads one 64-bit integer at `start`.
pub fn read_u64(bytes: &[u8], start: usize) -> (r: Result<(u64, usize), DecodeError>)
    ensures
        match take_u64(tail(bytes@, start as int)) {
            Ok((value, used)) => r matches Ok((v, end)) && v == value && end == start + used
                && start < end <= bytes.len(),
            Err(error) => r matches Err(e) && e == error,
        },
{
    proof {
        lemma_varint_cap_u64();
    }
    if start > bytes.len() {
        return Err(DecodeError::UnexpectedEnd);
    }
    read_varint(bytes, start, 10, 0x01)
}

/// Appends the bytes that carry `value`.
pub fn write_varint(out: &mut Vec<u8>, value: u64)
    ensures
        final(out)@ == old(out)@ + varint_bytes(value as nat),
{
    let mut left: u64 = value;
    while left >= 128
        invariant
            out@ + varint_bytes(left as nat) == old(out)@ + varint_bytes(value as nat),
        decreases left,
    {
        let ghost before = out@;
        out.push((left % 128 + 128) as u8);
        assert(out@ + varint_bytes((left / 128) as nat) =~= before + varint_bytes(left as nat));
        left = left / 128;
    }
    let ghost before = out@;
    out.push(left as u8);
    assert(out@ =~= before + varint_bytes(left as nat));
}

/// The unsigned number that stands for `n` on the wire.
pub fn zigzag_encode(n: i32) -> (z: u32)
    ensures
        z == zigzag(n as int),
{
    if n >= 0 {
        (n as u32) * 2
    } else {
        let wide: i64 = n as i64;
        let doubled: i64 = (0 - wide) + (0 - wide) - 1;
        doubled as u32
    }
}

/// The signed number that `z` stands for on the wire.
pub fn zigzag_decode(z: u32) -> (n: i32)
    ensures
        n == unzigzag(z as nat),
{
    if z % 2 == 0 {
        (z / 2) as i32
    } else {
        let half: i64 = (z / 2) as i64;
        let wide: i64 = 0 - half - 1;
        wide as i32
    }
}

} // verus!
