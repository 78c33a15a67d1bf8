//! Decoder for entry names stored in the compact dual encoding.
//!
//! A name is kept twice: as a zero-terminated single-byte fallback name, and
//! as an encoded name from which, together with the fallback name, the
//! sequence of 16-bit code points is rebuilt. The encoded name opens with the
//! high byte that two of the modes share. After it, flag bytes and items
//! alternate: each flag byte holds, from its top bits down, the 2-bit modes of
//! the up to four items that follow it.
//!
//! The code point that an item produces at index `i` of the output may draw
//! on byte `i` of the fallback name: the two names run in step, so the read
//! position in the fallback name is always the number of code points
//! produced so far.

use crate::text::code_points_to_string;
use crate::text::text_of;
use vstd::prelude::*;

verus! {

/// Why a name could not be decoded.
#[derive(Clone, Copy, Debug, PartialEq, Eq, Structural)]
pub enum NameError {
    /// The encoded name holds no byte, not even the shared high byte.
    Empty,
    /// The encoded name ends inside an item.
    Truncated,
    /// A run reads the fallback name past its end.
    Overrun,
    /// A code point is a surrogate, which no text can hold.
    NotScalar,
}

/// What one item of an encoded name stands for.
pub struct Item {
    /// The code points that the item produces.
    pub units: Seq<u16>,
    /// The number of bytes that the item takes in the encoded name.
    pub used: int,
}

/// The code point with the given low and high byte.
pub open spec fn wide(low: u8, high: u8) -> u16 {
    (low + high * 0x100) as u16
}

/// The mode of the next item: the top two bits of the flag queue.
pub open spec fn mode_of(flags: u8) -> u8 {
    flags >> 6
}

/// The flag queue after one mode was taken from it.
pub open spec fn rest_of(flags: u8) -> u8 {
    flags << 2
}

/// A copy run: `count` bytes of the fallback name from index `from`, each
/// taken as a code point.
pub open spec fn copied(name: Seq<u8>, from: int, count: int) -> Seq<u16> {
    Seq::new(count as nat, |i: int| name[from + i] as u16)
}

/// A correction run: `count` bytes of the fallback name from index `from`,
/// each with `correction` added modulo 256 and with `high` as its high byte.
pub open spec fn corrected(
    name: Seq<u8>,
    from: int,
    count: int,
    correction: u8,
    high: u8,
) -> Seq<u16> {
    Seq::new(count as nat, |i: int| wide(((correction + name[from + i]) % 0x100) as u8, high))
}

/// The item of mode `mode` that starts at index `at` of the encoded name,
/// when `done` code points were produced before it.
///
/// Mode 0 is a literal low byte, mode 1 a literal low byte under the shared
/// high byte, mode 2 a literal code point of two bytes. Mode 3 is a run over
/// the fallback name. Its first byte is the length: with the top bit set, the
/// other seven bits count the code points, and a correction byte follows;
/// with the top bit clear, the run copies two bytes more than the length.
pub open spec fn item(name: Seq<u8>, enc: Seq<u8>, at: int, mode: u8, done: int) -> Result<
    Item,
    NameError,
> {
    let high = enc[0];
    if mode == 0 {
        if at + 1 > enc.len() {
            Err(NameError::Truncated)
        } else {
            Ok(Item { units: seq![enc[at] as u16], used: 1 })
        }
    } else if mode == 1 {
        if at + 1 > enc.len() {
            Err(NameError::Truncated)
        } else {
            Ok(Item { units: seq![wide(enc[at], high)], used: 1 })
        }
    } else if mode == 2 {
        if at + 2 > enc.len() {
            Err(NameError::Truncated)
        } else {
            Ok(Item { units: seq![wide(enc[at], enc[at + 1])], used: 2 })
        }
    } else if at + 1 > enc.len() {
        Err(NameError::Truncated)
    } else if enc[at] >= 0x80 {
        let count = enc[at] - 0x80;
        if at + 2 > enc.len() {
            Err(NameError::Truncated)
        } else if count > 0 && done + count > name.len() {
            Err(NameError::Overrun)
        } else {
            Ok(Item { units: corrected(name, done, count, enc[at + 1], high), used: 2 })
        }
    } else {
        let count = enc[at] + 2;
        if done + count > name.len() {
            Err(NameError::Overrun)
        } else {
            Ok(Item { units: copied(name, done, count), used: 1 })
        }
    }
}

/// How far the decoding of a name has come.
pub struct Progress {
    /// The index of the next byte to read in the encoded name.
    pub at: int,
    /// The flag queue: the modes of the next items, from its top bits down.
    pub flags: u8,
    /// The number of valid bits left in the flag queue.
    pub bits: int,
    /// The code points produced so far.
    pub out: Seq<u16>,
}

/// Where decoding begins: behind the shared high byte, with an empty flag
/// queue and nothing produced.
pub open spec fn start() -> Progress {
    Progress { at: 1, flags: 0, bits: 0, out: Seq::empty() }
}

/// `p` with its flag queue filled from the encoded name where it was empty.
pub open spec fn refilled(enc: Seq<u8>, p: Progress) -> Progress {
    if p.bits == 0 {
        Progress { at: p.at + 1, flags: enc[p.at], bits: 8, out: p.out }
    } else {
        p
    }
}

/// The item that comes next at `p`.
pub open spec fn next_item(name: Seq<u8>, enc: Seq<u8>, p: Progress) -> Result<Item, NameError> {
    let r = refilled(enc, p);
    item(name, enc, r.at, mode_of(r.flags), p.out.len() as int)
}

/// `p` after the item `it` was decoded.
pub open spec fn advanced(enc: Seq<u8>, p: Progress, it: Item) -> Progress {
    let r = refilled(enc, p);
    Progress { at: r.at + it.used, flags: rest_of(r.flags), bits: r.bits - 2, out: p.out + it.units }
}

/// The code points of the whole name, given that decoding has come to `p`:
/// item after item is decoded until the encoded name is used up.
pub open spec fn decode_from(name: Seq<u8>, enc: Seq<u8>, p: Progress) -> Result<
    Seq<u16>,
    NameError,
>
    decreases enc.len() - p.at,
{
    if p.at >= enc.len() {
        Ok(p.out)
    } else {
        match next_item(name, enc, p) {
            Err(e) => Err(e),
            Ok(it) => decode_from(name, enc, advanced(enc, p, it)),
        }
    }
}

/// The code points that `(name, enc)` stands for.
pub open spec fn code_points(name: Seq<u8>, enc: Seq<u8>) -> Result<Seq<u16>, NameError> {
    decode_from(name, enc, start())
}

/// The name that `(name, enc)` stands for, as text.
pub open spec fn decoded_name(name: Seq<u8>, enc: Seq<u8>) -> Result<Seq<char>, NameError> {
    match code_points(name, enc) {
        Ok(points) => text_of(points),
        Err(e) => Err(e),
    }
}

/// Appends a copy run of `count` code points to `out`.
pub fn copy_run(name: &[u8], count: usize, out: &mut Vec<u16>)
    requires
        old(out)@.len() + count <= name@.len(),
    ensures
        final(out)@ == old(out)@ + copied(name@, old(out)@.len() as int, count as int),
        final(out)@.len() == old(out)@.len() + count,
        forall|i: int|
            old(out)@.len() <= i < final(out)@.len() ==> #[trigger] final(out)@[i] == name@[i],
{
    let ghost before = out@;
    let mut n: usize = 0;
    while n < count
        invariant
            n <= count,
            before.len() + count <= name@.len(),
            out@ == before + copied(name@, before.len() as int, n as int),
        decreases count - n,
    {
        let b = name[out.len()];
        out.push(b as u16);
        n += 1;
    }
}

/// Appends a correction run of `count` code points to `out`.
pub fn corrected_run(name: &[u8], count: usize, correction: u8, high: u8, out: &mut Vec<u16>)
    requires
        count > 0 ==> old(out)@.len() + count <= name@.len(),
    ensures
        final(out)@ == old(out)@ + corrected(
            name@,
            old(out)@.len() as int,
            count as int,
            correction,
            high,
        ),
        final(out)@.len() == old(out)@.len() + count,
        forall|i: int|
            old(out)@.len() <= i < final(out)@.len() ==> {
                &&& #[trigger] final(out)@[i] % 0x100 == (correction + name@[i]) % 0x100
                &&& final(out)@[i] / 0x100 == high
            },
{
    let ghost before = out@;
    let mut n: usize = 0;
    while n < count
        invariant
            n <= count,
            count > 0 ==> before.len() + count <= name@.len(),
            out@ == before + corrected(name@, before.len() as int, n as int, correction, high),
        decreases count - n,
    {
        let low = correction.wrapping_add(name[out.len()]);
        out.push(low as u16 + high as u16 * 0x100);
        n += 1;
    }
}

/// Decodes the item of mode `mode` at index `at` of `enc`, appends its code
/// points to `out` and returns the number of bytes it takes in `enc`. A
/// failed item leaves `out` as it was.
pub fn decode_item(name: &[u8], enc: &[u8], at: usize, mode: u8, out: &mut Vec<u16>) -> (r: Result<
    usize,
    NameError,
>)
    requires
        0 < enc@.len(),
        at <= enc@.len(),
    ensures
        match (r, item(name@, enc@, at as int, mode, old(out)@.len() as int)) {
            (Ok(used), Ok(it)) => {
                &&& used == it.used
                &&& 1 <= used <= 2
                &&& at + used <= enc@.len()
                &&& final(out)@ == old(out)@ + it.units
            },
            (Err(e), Err(f)) => e == f && final(out)@ == old(out)@,
            _ => false,
        },
{
    let left = enc.len() - at;
    let high = enc[0];
    if left < 1 {
        return Err(NameError::Truncated);
    }
    if mode == 0 {
        out.push(enc[at] as u16);
        Ok(1)
    } else if mode == 1 {
        out.push(enc[at] as u16 + high as u16 * 0x100);
        Ok(1)
    } else if mode == 2 {
        if left < 2 {
            return Err(NameError::Truncated);
        }
        out.push(enc[at] as u16 + enc[at + 1] as u16 * 0x100);
        Ok(2)
    } else {
        let length = enc[at];
        if length >= 0x80 {
            if left < 2 {
                return Err(NameError::Truncated);
            }
            let count = (length - 0x80) as usize;
            if count > 0 && (out.len() > name.len() || count > name.len() - out.len()) {
                return Err(NameError::Overrun);
            }
            corrected_run(name, count, enc[at + 1], high, out);
            Ok(2)
        } else {
            let count = length as usize + 2;
            if out.len() > name.len() || count > name.len() - out.len() {
                return Err(NameError::Overrun);
            }
            copy_run(name, count, out);
            Ok(1)
        }
    }
}

/// Decodes the code points of a name from its fallback name and its encoded
/// name.
pub fn decode_code_points(name: &[u8], enc_name: &[u8]) -> (r: Result<Vec<u16>, NameError>)
    requires
        enc_name@.len() > 0,
    ensures
        match r {
            Ok(points) => code_points(name@, enc_name@) == Ok::<Seq<u16>, NameError>(points@),
            Err(e) => code_points(name@, enc_name@) == Err::<Seq<u16>, NameError>(e),
        },
{
    let mut flags: u8 = 0;
    let mut flag_bits: u32 = 0;
    let mut enc_pos: usize = 1;
    let mut out: Vec<u16> = Vec::new();
    while enc_pos < enc_name.len()
        invariant
            1 <= enc_pos <= enc_name@.len(),
            flag_bits <= 6,
            flag_bits % 2 == 0,
            decode_from(
                name@,
                enc_name@,
                Progress { at: enc_pos as int, flags, bits: flag_bits as int, out: out@ },
            ) == code_points(name@, enc_name@),
        decreases enc_name@.len() - enc_pos,
    {
        if flag_bits == 0 {
            flags = enc_name[enc_pos];
            enc_pos += 1;
            flag_bits = 8;
        }
        match decode_item(name, enc_name, enc_pos, flags >> 6, &mut out) {
            Err(e) => {
                return Err(e);
            },
            Ok(used) => {
                enc_pos += used;
            },
        }
        flags = flags << 2;
        flag_bits -= 2;
    }
    Ok(out)
}

/// Whether `r` is what decoding `(name, enc)` gives.
pub open spec fn decodes_to(name: Seq<u8>, enc: Seq<u8>, r: Result<String, NameError>) -> bool {
    match r {
        Ok(text) => decoded_name(name, enc) == Ok::<Seq<char>, NameError>(text@),
        Err(e) => decoded_name(name, enc) == Err::<Seq<char>, NameError>(e),
    }
}

/// Decodes a name from its fallback name and its encoded name. The encoded
/// name holds at least its first byte, the shared high byte.
pub fn decode_name(name: &[u8], enc_name: &[u8]) -> (r: Result<String, NameError>)
    requires
        enc_name@.len() > 0,
    ensures
        decodes_to(name@, enc_name@, r),
{
    match decode_code_points(name, enc_name) {
        Ok(points) => code_points_to_string(points.as_slice()),
        Err(e) => Err(e),
    }
}

} // verus!
