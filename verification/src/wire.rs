//! How values travel over the single open-drain line.
//!
//! A byte crosses the line as eight one-bit time slots, least significant
//! bit first. This module is the arithmetic of that framing; the slots
//! themselves are driven by whoever owns the pin.

use vstd::prelude::*;
use crate::error::Error;

verus! {

/// How long, in microseconds, a reset holds the line low at the least.
pub const RESET_LOW_US: u16 = 480;

/// Whether a device announced itself: some sample of the presence window
/// read the line low.
pub open spec fn presence(samples: Seq<bool>) -> bool {
    exists|i: int| 0 <= i < samples.len() && !samples[i]
}

/// What a reset amounts to.
///
/// `released` says whether the line was seen high once it was let go;
/// `samples` are the levels read in the presence window, `true` for high.
/// A line that never went high is a bus failure. Otherwise the result says
/// whether any device pulled the line low in the window.
pub fn reset_outcome(released: bool, samples: &[bool]) -> (outcome: Result<bool, Error>)
    ensures
        outcome == (if released {
            Ok::<bool, Error>(presence(samples@))
        } else {
            Err::<bool, Error>(Error::Bus)
        }),
{
    if !released {
        return Err(Error::Bus);
    }
    let mut seen = false;
    let mut i: usize = 0;
    while i < samples.len()
        invariant
            i <= samples@.len(),
            seen == presence(samples@.take(i as int)),
        decreases samples@.len() - i,
    {
        let ghost head = samples@.take(i as int);
        let ghost more = samples@.take(i + 1);
        if !samples[i] {
            seen = true;
            assert(!more[i as int]);
        } else {
            proof {
                if presence(more) {
                    let w = choose|w: int| 0 <= w < more.len() && !more[w];
                    assert(!head[w]);
                }
                if presence(head) {
                    let w = choose|w: int| 0 <= w < head.len() && !head[w];
                    assert(!more[w]);
                }
            }
        }
        i = i + 1;
    }
    assert(samples@.take(i as int) == samples@);
    Ok(seen)
}

/// Bit `k` of `byte`, counting from the least significant. Meant for `k < 8`.
pub open spec fn bit_of(byte: u8, k: u8) -> bool {
    (byte >> k) & 1 == 1
}

/// The eight bits of `byte` in the order in which they cross the line.
pub open spec fn bits_of(byte: u8) -> Seq<bool> {
    Seq::new(8, |k: int| bit_of(byte, k as u8))
}

/// Reads bit `k` of `byte`.
pub fn get_bit(byte: u8, k: u8) -> (bit: bool)
    requires
        k < 8,
    ensures
        bit == bit_of(byte, k),
{
    (byte >> k) & 1 == 1
}

/// `byte` with bit `k` replaced by `bit`; every other bit is kept.
pub fn with_bit(byte: u8, k: u8, bit: bool) -> (out: u8)
    requires
        k < 8,
    ensures
        bit_of(out, k) == bit,
        forall|j: u8| j < 8 && j != k ==> bit_of(out, j) == bit_of(byte, j),
{
    let mask: u8 = 1u8 << k;
    let out: u8 = if bit {
        byte | mask
    } else {
        byte & !mask
    };
    proof {
        assert(k < 8 ==> ((byte | (1u8 << k)) >> k) & 1 == 1) by (bit_vector);
        assert(k < 8 ==> ((byte & !(1u8 << k)) >> k) & 1 == 0) by (bit_vector);
        assert forall|j: u8| j < 8 && j != k implies bit_of(out, j) == bit_of(byte, j) by {
            assert(j < 8 && k < 8 && j != k ==> ((byte | (1u8 << k)) >> j) & 1 == (byte >> j) & 1)
                by (bit_vector);
            assert(j < 8 && k < 8 && j != k ==> ((byte & !(1u8 << k)) >> j) & 1 == (byte >> j) & 1)
                by (bit_vector);
        }
    }
    out
}

/// Splits a byte into its time slots, first slot first.
pub fn byte_to_bits(byte: u8) -> (bits: [bool; 8])
    ensures
        bits@ == bits_of(byte),
{
    let mut bits = [false; 8];
    let mut k: u8 = 0;
    while k < 8
        invariant
            k <= 8,
            forall|j: int| 0 <= j < k ==> bits@[j] == bit_of(byte, j as u8),
        decreases 8 - k,
    {
        bits[k as usize] = get_bit(byte, k);
        k = k + 1;
    }
    assert(bits@ =~= bits_of(byte));
    bits
}

/// Assembles a byte from eight time slots, first slot first.
pub fn bits_to_byte(bits: &[bool; 8]) -> (byte: u8)
    ensures
        bits_of(byte) == bits@,
{
    let mut byte: u8 = 0;
    let mut k: u8 = 0;
    while k < 8
        invariant
            k <= 8,
            forall|j: u8| j < k ==> bit_of(byte, j) == bits@[j as int],
        decreases 8 - k,
    {
        byte = with_bit(byte, k, bits[k as usize]);
        k = k + 1;
    }
    assert(bits_of(byte) =~= bits@) by {
        assert forall|j: int| 0 <= j < 8 implies bits_of(byte)[j] == bits@[j] by {
            assert(bit_of(byte, j as u8) == bits@[(j as u8) as int]);
        }
    }
    byte
}

/// A byte is determined by its eight bits.
pub proof fn lemma_bits_determine_byte(a: u8, b: u8)
    requires
        forall|k: u8| k < 8 ==> bit_of(a, k) == bit_of(b, k),
    ensures
        a == b,
{
    assert(bit_of(a, 0) == bit_of(b, 0));
    assert(bit_of(a, 1) == bit_of(b, 1));
    assert(bit_of(a, 2) == bit_of(b, 2));
    assert(bit_of(a, 3) == bit_of(b, 3));
    assert(bit_of(a, 4) == bit_of(b, 4));
    assert(bit_of(a, 5) == bit_of(b, 5));
    assert(bit_of(a, 6) == bit_of(b, 6));
    assert(bit_of(a, 7) == bit_of(b, 7));
    assert(((a >> 0u8) & 1 == 1) == ((b >> 0u8) & 1 == 1) && ((a >> 1u8) & 1 == 1) == ((b >> 1u8) & 1
        == 1) && ((a >> 2u8) & 1 == 1) == ((b >> 2u8) & 1 == 1) && ((a >> 3u8) & 1 == 1) == ((b
        >> 3u8) & 1 == 1) && ((a >> 4u8) & 1 == 1) == ((b >> 4u8) & 1 == 1) && ((a >> 5u8) & 1 == 1)
        == ((b >> 5u8) & 1 == 1) && ((a >> 6u8) & 1 == 1) == ((b >> 6u8) & 1 == 1) && ((a >> 7u8) & 1
        == 1) == ((b >> 7u8) & 1 == 1) ==> a == b) by (bit_vector);
}

/// Splitting a byte and assembling it again gives the byte back, and the
/// other way round: the framing loses nothing.
pub proof fn law_framing_round_trip(byte: u8, other: u8)
    requires
        bits_of(other) == bits_of(byte),
    ensures
        other == byte,
{
    assert forall|k: u8| k < 8 implies bit_of(other, k) == bit_of(byte, k) by {
        let i = k as int;
        assert(bits_of(other)[i] == bit_of(other, i as u8));
        assert(bits_of(byte)[i] == bit_of(byte, i as u8));
        assert(i as u8 == k);
    }
    lemma_bits_determine_byte(other, byte);
}

} // verus!
