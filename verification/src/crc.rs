//! The 8-bit checksum that seals addresses and scratchpads on the bus.
//!
//! The register is fed least significant bit first and folded with the
//! polynomial x^8 + x^5 + x^4 + 1, written reflected as `0x8C`. A frame is
//! *sealed* when its last byte is the checksum of the bytes before it.

use vstd::prelude::*;
use vstd::slice::slice_subrange;

verus! {

/// The register after one bit time: `byte`'s lowest bit is mixed into `crc`.
pub open spec fn crc8_shift(crc: u8, byte: u8) -> u8 {
    if (crc ^ byte) & 1 != 0 {
        (crc >> 1) ^ 0x8C
    } else {
        crc >> 1
    }
}

/// The register after the eight bit times of one byte.
pub open spec fn crc8_byte(crc: u8, byte: u8) -> u8 {
    let c1 = crc8_shift(crc, byte);
    let c2 = crc8_shift(c1, byte >> 1);
    let c3 = crc8_shift(c2, byte >> 2);
    let c4 = crc8_shift(c3, byte >> 3);
    let c5 = crc8_shift(c4, byte >> 4);
    let c6 = crc8_shift(c5, byte >> 5);
    let c7 = crc8_shift(c6, byte >> 6);
    crc8_shift(c7, byte >> 7)
}

/// The register after all of `data`, first byte first, starting from `crc`.
pub open spec fn crc8_fold(crc: u8, data: Seq<u8>) -> u8
    decreases data.len(),
{
    if data.len() == 0 {
        crc
    } else {
        crc8_fold(crc8_byte(crc, data[0]), data.drop_first())
    }
}

/// The checksum of `data`: the fold from a cleared register.
pub open spec fn crc8(data: Seq<u8>) -> u8 {
    crc8_fold(0, data)
}

/// Whether the last byte of `frame` is the checksum of the bytes before it.
pub open spec fn is_sealed(frame: Seq<u8>) -> bool {
    frame.len() > 0 && crc8(frame.drop_last()) == frame.last()
}

/// `onewire::compute_partial_crc8`, taken on trust.
///
/// The claim: the function continues a checksum from the register value
/// `crc` over every byte of `data` in order, eight bit times per byte, lowest
/// bit first, and returns the register. It reads nothing but its arguments.
pub assume_specification[ onewire::compute_partial_crc8 ](crc: u8, data: &[u8]) -> (out: u8)
    ensures
        out == crc8_fold(crc, data@),
;

/// The checksum of `data`.
pub fn checksum(data: &[u8]) -> (crc: u8)
    ensures
        crc == crc8(data@),
{
    onewire::compute_partial_crc8(0, data)
}

/// Whether `frame` is sealed. An empty frame has no checksum byte and is not.
pub fn check_seal(frame: &[u8]) -> (ok: bool)
    ensures
        ok == is_sealed(frame@),
{
    let n = frame.len();
    if n == 0 {
        return false;
    }
    let body = slice_subrange(frame, 0, n - 1);
    assert(body@ == frame@.drop_last());
    checksum(body) == frame[n - 1]
}

/// For a fixed data byte, different registers stay different.
pub proof fn lemma_byte_keeps_registers_apart(a: u8, b: u8, byte: u8)
    requires
        a != b,
    ensures
        crc8_byte(a, byte) != crc8_byte(b, byte),
{
    assert(a != b ==> crc8_byte(a, byte) != crc8_byte(b, byte)) by (bit_vector);
}

/// From a fixed register, different data bytes lead to different registers.
pub proof fn lemma_register_tells_bytes_apart(crc: u8, x: u8, y: u8)
    requires
        x != y,
    ensures
        crc8_byte(crc, x) != crc8_byte(crc, y),
{
    assert(x != y ==> crc8_byte(crc, x) != crc8_byte(crc, y)) by (bit_vector);
}

/// Over the same data, different starting registers end in different
/// registers.
pub proof fn lemma_fold_keeps_registers_apart(a: u8, b: u8, data: Seq<u8>)
    requires
        a != b,
    ensures
        crc8_fold(a, data) != crc8_fold(b, data),
    decreases data.len(),
{
    if data.len() > 0 {
        lemma_byte_keeps_registers_apart(a, b, data[0]);
        lemma_fold_keeps_registers_apart(
            crc8_byte(a, data[0]),
            crc8_byte(b, data[0]),
            data.drop_first(),
        );
    }
}

/// Changing one byte of the data changes the final register.
pub proof fn lemma_fold_detects_one_byte(crc: u8, data: Seq<u8>, k: int, v: u8)
    requires
        0 <= k < data.len(),
        v != data[k],
    ensures
        crc8_fold(crc, data.update(k, v)) != crc8_fold(crc, data),
    decreases data.len(),
{
    let changed = data.update(k, v);
    if k == 0 {
        assert(changed.drop_first() == data.drop_first());
        lemma_register_tells_bytes_apart(crc, v, data[0]);
        lemma_fold_keeps_registers_apart(
            crc8_byte(crc, v),
            crc8_byte(crc, data[0]),
            data.drop_first(),
        );
    } else {
        assert(changed.drop_first() == data.drop_first().update(k - 1, v));
        lemma_fold_detects_one_byte(crc8_byte(crc, data[0]), data.drop_first(), k - 1, v);
    }
}

/// A sealed frame with any one byte replaced by a different value is no
/// longer sealed, whether the byte lies in the content or is the checksum
/// byte itself.
pub proof fn law_one_changed_byte_breaks_seal(frame: Seq<u8>, k: int, v: u8)
    requires
        is_sealed(frame),
        0 <= k < frame.len(),
        v != frame[k],
    ensures
        !is_sealed(frame.update(k, v)),
{
    let changed = frame.update(k, v);
    if k == frame.len() - 1 {
        assert(changed.drop_last() == frame.drop_last());
    } else {
        assert(changed.drop_last() == frame.drop_last().update(k, v));
        lemma_fold_detects_one_byte(0, frame.drop_last(), k, v);
    }
}

} // verus!
