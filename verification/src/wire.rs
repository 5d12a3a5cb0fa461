//! Numbers as bytes: the varints, the folded signed values and the fixed integers a chunk is made
//! of, and the reader that takes them apart again.

use crate::error::{note_error, refused, AppError};
use vstd::prelude::*;

verus! {

/// A number as a little-endian varint: seven bits a byte, the top bit marking "there is more".
pub open spec fn varint_of(value: nat) -> Seq<u8>
    decreases value,
{
    if value < 128 {
        seq![value as u8]
    } else {
        seq![(value % 128 + 128) as u8] + varint_of(value / 128)
    }
}

/// Appends a number as a varint.
pub fn put_varint(out: &mut Vec<u8>, value: u64)
    ensures
        final(out)@ == old(out)@ + varint_of(value as nat),
{
    let mut rest: u64 = value;
    while rest >= 128
        invariant
            out@ + varint_of(rest as nat) == old(out)@ + varint_of(value as nat),
        decreases rest,
    {
        let ghost before = out@;
        out.push((rest % 128 + 128) as u8);
        assert(out@ + varint_of((rest / 128) as nat) =~= before + varint_of(rest as nat));
        rest = rest / 128;
    }
    out.push(rest as u8);
    assert(out@ =~= old(out)@ + varint_of(value as nat));
}

/// A signed value folded so that small magnitudes stay small: 0, -1, 1, -2, ... become 0, 1, 2, 3.
pub open spec fn zigzag_of(value: i32) -> nat {
    if value >= 0 {
        (2 * value) as nat
    } else {
        (-2 * value - 1) as nat
    }
}

/// A signed value as an unsigned one whose size follows its magnitude.
pub fn zigzag(value: i32) -> (folded: u64)
    ensures
        folded == zigzag_of(value),
        folded <= u32::MAX,
{
    if value >= 0 {
        (value as u64) * 2
    } else {
        ((-1 - value) as u64) * 2 + 1
    }
}

/// The `i32` congruent to a number modulo 2^32.
pub open spec fn wrap32(value: int) -> i32 {
    ((value + 0x8000_0000) % 0x1_0000_0000 - 0x8000_0000) as i32
}

/// The signed value a folded one stands for.
///
/// A folded value of a chunk that is not damaged fits in 32 bits; of a larger one only the part
/// that decides an `i32` is read.
pub open spec fn unzigzag_of(folded: nat) -> i32 {
    if folded % 2 == 0 {
        wrap32((folded / 2) as int)
    } else {
        wrap32(-1 - folded / 2)
    }
}

/// A folded value back as the signed value it was.
pub fn unzigzag(folded: u64) -> (value: i32)
    ensures
        value == unzigzag_of(folded as nat),
{
    let half: u64 = (folded / 2) % 0x1_0000_0000;
    let signed: i64 = if half < 0x8000_0000 {
        half as i64
    } else {
        half as i64 - 0x1_0000_0000
    };
    if folded % 2 == 0 {
        signed as i32
    } else {
        (-1 - signed) as i32
    }
}

/// Folding loses nothing: every `i32` comes back from its folded form.
pub proof fn zigzag_reads_back(value: i32)
    ensures
        unzigzag_of(zigzag_of(value)) == value,
{
}

/// An `i32` as its four little-endian bytes.
pub open spec fn le_bytes(value: i32) -> Seq<u8> {
    let bits = value as int % 0x1_0000_0000;
    seq![
        (bits % 0x100) as u8,
        (bits / 0x100 % 0x100) as u8,
        (bits / 0x1_0000 % 0x100) as u8,
        (bits / 0x100_0000) as u8,
    ]
}

/// The `i32` four little-endian bytes stand for.
pub open spec fn le_value(a: u8, b: u8, c: u8, d: u8) -> i32 {
    wrap32(a + 0x100 * b + 0x1_0000 * c + 0x100_0000 * d)
}

/// The four bytes of an `i32` stand for it.
pub proof fn le_reads_back(value: i32)
    ensures
        le_value(le_bytes(value)[0], le_bytes(value)[1], le_bytes(value)[2], le_bytes(value)[3])
            == value,
{
    let bits = value as int % 0x1_0000_0000;
    let low = bits / 0x100;
    let mid = low / 0x100;
    assert(bits / 0x1_0000 == mid);
    assert(bits / 0x100_0000 == mid / 0x100);
    assert(bits == bits % 0x100 + 0x100 * low);
    assert(low == low % 0x100 + 0x100 * mid);
    assert(mid == mid % 0x100 + 0x100 * (mid / 0x100));
    assert(0 <= mid / 0x100 < 0x100);
}

/// Appends an `i32` as its four little-endian bytes.
pub fn put_i32(out: &mut Vec<u8>, value: i32)
    ensures
        final(out)@ == old(out)@ + le_bytes(value),
{
    let bits: u64 = if value >= 0 {
        value as u64
    } else {
        (value as i64 + 0x1_0000_0000) as u64
    };
    out.push((bits % 0x100) as u8);
    out.push((bits / 0x100 % 0x100) as u8);
    out.push((bits / 0x1_0000 % 0x100) as u8);
    out.push((bits / 0x100_0000) as u8);
    assert(out@ =~= old(out)@ + le_bytes(value));
}

// ---------------------------------------------------------------------------------------------
// Reading numbers back
// ---------------------------------------------------------------------------------------------

/// Why a chunk that ends too early is refused.
pub open spec fn short_text() -> Seq<char> {
    "a chunk of this note ends in the middle of a value"@
}

/// Why a number of more than ten bytes is refused.
pub open spec fn not_a_number_text() -> Seq<char> {
    "a chunk of this note holds a number that is not a number"@
}

/// The byte at a place, and the place after it.
pub open spec fn byte_at(bytes: Seq<u8>, at: int) -> Result<(u8, int), Seq<char>> {
    if at < bytes.len() {
        Ok((bytes[at], at + 1))
    } else {
        Err(short_text())
    }
}

/// The four-byte `i32` at a place, and the place after it.
pub open spec fn i32_at(bytes: Seq<u8>, at: int) -> Result<(i32, int), Seq<char>> {
    if at + 4 <= bytes.len() {
        Ok((le_value(bytes[at], bytes[at + 1], bytes[at + 2], bytes[at + 3]), at + 4))
    } else {
        Err(short_text())
    }
}

/// The rest of a varint of which `taken` bytes have been read: seven bits a byte, ending at the
/// first byte without the top bit, and never longer than ten bytes.
pub open spec fn varint_rest(bytes: Seq<u8>, at: int, taken: nat) -> Result<(nat, int), Seq<char>>
    decreases 10 - taken,
{
    if taken >= 10 {
        Err(not_a_number_text())
    } else if at >= bytes.len() {
        Err(short_text())
    } else if bytes[at] < 128 {
        Ok((bytes[at] as nat, at + 1))
    } else {
        match varint_rest(bytes, at + 1, taken + 1) {
            Ok((rest, next)) => Ok(((bytes[at] - 128 + 128 * rest) as nat, next)),
            Err(reason) => Err(reason),
        }
    }
}

/// The varint at a place, and the place after it: what does not fit in 64 bits is dropped.
pub open spec fn varint_at(bytes: Seq<u8>, at: int) -> Result<(nat, int), Seq<char>> {
    match varint_rest(bytes, at, 0) {
        Ok((value, next)) => Ok((value % 0x1_0000_0000_0000_0000, next)),
        Err(reason) => Err(reason),
    }
}

/// A reader over the raw arrays, which reports a short chunk instead of panicking on one.
pub struct Cursor<'a> {
    bytes: &'a [u8],
    at: usize,
}

impl<'a> Cursor<'a> {
    /// The bytes being read.
    pub closed spec fn bytes(&self) -> Seq<u8> {
        self.bytes@
    }

    /// The place the next value is read from.
    pub closed spec fn at(&self) -> int {
        self.at as int
    }

    /// The cursor is on one of the bytes, or just past the last.
    pub open spec fn wf(&self) -> bool {
        0 <= self.at() <= self.bytes().len()
    }

    /// A reader at the first byte.
    pub fn new(bytes: &'a [u8]) -> (cursor: Self)
        ensures
            cursor.wf(),
            cursor.bytes() == bytes@,
            cursor.at() == 0,
    {
        Cursor { bytes, at: 0 }
    }

    /// How many bytes have not been read.
    pub fn remaining(&self) -> (left: usize)
        requires
            self.wf(),
        ensures
            left == self.bytes().len() - self.at(),
    {
        self.bytes.len() - self.at
    }

    /// The next byte.
    pub fn byte(&mut self) -> (result: Result<u8, AppError>)
        requires
            old(self).wf(),
        ensures
            final(self).wf(),
            final(self).bytes() == old(self).bytes(),
            match byte_at(old(self).bytes(), old(self).at()) {
                Ok((value, next)) => result == Ok::<u8, AppError>(value) && final(self).at()
                    == next,
                Err(reason) => refused(result, reason) && final(self).at() == old(self).at(),
            },
    {
        if self.at < self.bytes.len() {
            let byte: u8 = self.bytes[self.at];
            self.at = self.at + 1;
            Ok(byte)
        } else {
            Err(note_error("a chunk of this note ends in the middle of a value"))
        }
    }

    /// The next `i32`, as four little-endian bytes.
    pub fn i32_le(&mut self) -> (result: Result<i32, AppError>)
        requires
            old(self).wf(),
        ensures
            final(self).wf(),
            final(self).bytes() == old(self).bytes(),
            match i32_at(old(self).bytes(), old(self).at()) {
                Ok((value, next)) => result == Ok::<i32, AppError>(value) && final(self).at()
                    == next,
                Err(reason) => refused(result, reason),
            },
    {
        let a: u8 = match self.byte() {
            Ok(byte) => byte,
            Err(error) => return Err(error),
        };
        let b: u8 = match self.byte() {
            Ok(byte) => byte,
            Err(error) => return Err(error),
        };
        let c: u8 = match self.byte() {
            Ok(byte) => byte,
            Err(error) => return Err(error),
        };
        let d: u8 = match self.byte() {
            Ok(byte) => byte,
            Err(error) => return Err(error),
        };
        let bits: i64 = a as i64 + 0x100 * (b as i64) + 0x1_0000 * (c as i64) + 0x100_0000 * (
        d as i64);
        if bits < 0x8000_0000 {
            Ok(bits as i32)
        } else {
            Ok((bits - 0x1_0000_0000) as i32)
        }
    }

    /// The rest of a varint, after `taken` of its bytes.
    fn varint_tail(&mut self, taken: u32) -> (result: Result<u64, AppError>)
        requires
            old(self).wf(),
            taken <= 10,
        ensures
            final(self).wf(),
            final(self).bytes() == old(self).bytes(),
            match varint_rest(old(self).bytes(), old(self).at(), taken as nat) {
                Ok((value, next)) => result == Ok::<u64, AppError>(
                    (value % 0x1_0000_0000_0000_0000) as u64,
                ) && final(self).at() == next,
                Err(reason) => refused(result, reason),
            },
        decreases 10 - taken,
    {
        if taken >= 10 {
            return Err(note_error("a chunk of this note holds a number that is not a number"));
        }
        let byte: u8 = match self.byte() {
            Ok(byte) => byte,
            Err(error) => return Err(error),
        };
        if byte < 128 {
            return Ok(byte as u64);
        }
        match self.varint_tail(taken + 1) {
            Ok(rest) => {
                let group: u64 = (byte - 128) as u64;
                proof {
                    let whole = varint_rest(
                        old(self).bytes(),
                        old(self).at() + 1,
                        taken as nat + 1,
                    )->Ok_0.0;
                    varint_step(group as nat, whole);
                }
                Ok((rest % 0x200_0000_0000_0000) * 128 + group)
            },
            Err(error) => Err(error),
        }
    }

    /// The next varint.
    pub fn varint(&mut self) -> (result: Result<u64, AppError>)
        requires
            old(self).wf(),
        ensures
            final(self).wf(),
            final(self).bytes() == old(self).bytes(),
            match varint_at(old(self).bytes(), old(self).at()) {
                Ok((value, next)) => result == Ok::<u64, AppError>(value as u64)
                    && final(self).at() == next,
                Err(reason) => refused(result, reason),
            },
    {
        self.varint_tail(0)
    }
}

/// What one more group of seven bits makes of a number, in 64 bits.
proof fn varint_step(group: nat, whole: nat)
    requires
        group < 128,
    ensures
        (group + 128 * whole) % 0x1_0000_0000_0000_0000 == (whole % 0x1_0000_0000_0000_0000
            % 0x200_0000_0000_0000) * 128 + group,
{
}

// ---------------------------------------------------------------------------------------------
// What the numbers promise
// ---------------------------------------------------------------------------------------------

/// A number is written in groups of seven bits, the lowest first, with the top bit set on all but the last.
pub proof fn a_varint_is_written_low_bits_first(low: nat, high: nat)
    requires
        low < 128,
    ensures
        varint_of(low) == seq![low as u8],
        high > 0 ==> varint_of(low + 128 * high) == seq![(low + 128) as u8] + varint_of(high),
{
    if high > 0 {
        assert((low + 128 * high) % 128 == low);
        assert((low + 128 * high) / 128 == high);
    }
}

/// Small numbers of either sign fold to small numbers: what is not negative to twice it, and the rest to the odd
/// numbers between.
pub proof fn folding_keeps_small_numbers_small(value: i32, half: nat)
    ensures
        value >= 0 ==> zigzag_of(value) == 2 * value,
        value < 0 ==> zigzag_of(value) == -2 * value - 1,
        half <= i32::MAX ==> unzigzag_of(2 * half) == half,
        half <= i32::MAX ==> unzigzag_of(2 * half + 1) == -1 - half,
{
}

/// A number wraps round to the one of thirty-two bits that differs from it by whole turns.
pub proof fn a_number_wraps_by_whole_turns(value: int, turns: int)
    ensures
        i32::MIN <= value <= i32::MAX ==> wrap32(value) == value,
        wrap32(value + 0x1_0000_0000 * turns) == wrap32(value),
        (value - wrap32(value)) % 0x1_0000_0000 == 0,
{
    assert((value + 0x1_0000_0000 * turns + 0x8000_0000) % 0x1_0000_0000 == (value + 0x8000_0000)
        % 0x1_0000_0000) by {
        vstd::arithmetic::div_mod::lemma_mod_multiples_vanish(
            turns,
            value + 0x8000_0000,
            0x1_0000_0000,
        );
    }
}

/// A number of thirty-two bits is written as four bytes, the lowest first, which add up to it.
pub proof fn four_bytes_add_up(value: i32)
    ensures
        le_bytes(value).len() == 4,
        ({
            let bytes = le_bytes(value);
            let sum = bytes[0] + 0x100 * bytes[1] + 0x1_0000 * bytes[2] + 0x100_0000 * bytes[3];
            sum == if value >= 0 {
                value as int
            } else {
                value + 0x1_0000_0000
            }
        }),
{
    let bits = value as int % 0x1_0000_0000;
    let low = bits / 0x100;
    let mid = low / 0x100;
    assert(bits / 0x1_0000 == mid);
    assert(bits / 0x100_0000 == mid / 0x100);
}

/// What is read where it was written is what was written, and reading goes on behind it; reading past the end is
/// refused.
pub proof fn what_is_written_is_read(before: Seq<u8>, value: i32, byte: u8, after: Seq<u8>, at: int)
    ensures
        i32_at(before + le_bytes(value) + after, before.len() as int) == Ok::<(i32, int), Seq<char>>(
            (value, before.len() as int + 4),
        ),
        byte_at(before + seq![byte] + after, before.len() as int) == Ok::<(u8, int), Seq<char>>(
            (byte, before.len() as int + 1),
        ),
        at >= before.len() ==> byte_at(before, at) == Err::<(u8, int), Seq<char>>(
            "a chunk of this note ends in the middle of a value"@,
        ),
        at + 4 > before.len() ==> i32_at(before, at) == Err::<(i32, int), Seq<char>>(
            "a chunk of this note ends in the middle of a value"@,
        ),
        at >= before.len() ==> varint_at(before, at) == Err::<(nat, int), Seq<char>>(
            "a chunk of this note ends in the middle of a value"@,
        ),
{
    let whole = before + le_bytes(value) + after;
    let n = before.len() as int;
    assert(whole[n] == le_bytes(value)[0] && whole[n + 1] == le_bytes(value)[1] && whole[n + 2]
        == le_bytes(value)[2] && whole[n + 3] == le_bytes(value)[3]);
    le_reads_back(value);
    assert((before + seq![byte] + after)[n] == byte);
}

/// A number of bytes is read seven bits at a time: a byte without the top bit ends it, and one with it adds what
/// it says to a hundred and twenty-eight times the rest. One that does not end within ten bytes is no number.
pub proof fn a_varint_ends_at_its_last_byte(bytes: Seq<u8>, at: int, taken: nat)
    requires
        0 <= at < bytes.len(),
        taken < 10,
    ensures
        bytes[at] < 128 ==> varint_rest(bytes, at, taken) == Ok::<(nat, int), Seq<char>>(
            (bytes[at] as nat, at + 1),
        ),
        bytes[at] >= 128 ==> (varint_rest(bytes, at + 1, taken + 1) matches Ok((rest, next))
            ==> varint_rest(bytes, at, taken) == Ok::<(nat, int), Seq<char>>(
            ((bytes[at] - 128) as nat + 128 * rest, next),
        )),
        bytes[at] >= 128 ==> (varint_rest(bytes, at + 1, taken + 1) matches Err(reason)
            ==> varint_rest(bytes, at, taken) == Err::<(nat, int), Seq<char>>(reason)),
        varint_rest(bytes, at, 10) == Err::<(nat, int), Seq<char>>(
            "a chunk of this note holds a number that is not a number"@,
        ),
{
}

} // verus!
