//! The 64-bit identifier that tells the devices on one bus apart.

use vstd::prelude::*;
use crate::crc::{check_seal, is_sealed};
use crate::wire::{bit_of, get_bit, lemma_bits_determine_byte, with_bit};

verus! {

/// The number of bytes in an address.
pub const ADDRESS_BYTES: usize = 8;

/// The number of one-bit slots in which an address crosses the line.
pub const ADDRESS_BITS: u8 = 64;

/// An address: a family code, a 48-bit serial number and a checksum byte,
/// in that order. The value never changes once it exists.
///
/// Its view is the sequence of its eight bytes.
#[derive(Clone, Copy, Debug, PartialEq, Eq)]
pub struct DeviceAddress {
    bytes: [u8; 8],
}

impl View for DeviceAddress {
    type V = Seq<u8>;

    closed spec fn view(&self) -> Seq<u8> {
        self.bytes@
    }
}

/// Slot `i` of an address given by its bytes: bit `i % 8` of byte `i / 8`.
pub open spec fn slot_of(bytes: Seq<u8>, i: int) -> bool {
    bit_of(bytes[i / 8], (i % 8) as u8)
}

impl DeviceAddress {
    /// The address as the 64 slots in which it crosses the line: byte by
    /// byte, each byte least significant bit first.
    pub open spec fn bits(&self) -> Seq<bool> {
        Seq::new(64, |i: int| slot_of(self@, i))
    }

    /// Whether the last byte is the checksum of the seven before it.
    pub open spec fn valid(&self) -> bool {
        is_sealed(self@)
    }

    /// The address that crosses the line as `slots`.
    pub open spec fn with_bits(slots: Seq<bool>) -> DeviceAddress {
        choose|address: DeviceAddress| address.bits() == slots
    }

    /// The address made of `bytes`. Nothing is checked.
    pub fn from_bytes(bytes: [u8; 8]) -> (address: Self)
        ensures
            address@ == bytes@,
    {
        DeviceAddress { bytes }
    }

    /// The eight bytes.
    pub fn bytes(&self) -> (bytes: [u8; 8])
        ensures
            bytes@ == self@,
    {
        self.bytes
    }

    /// The first byte, which names the kind of device.
    pub fn family_code(&self) -> (code: u8)
        ensures
            code == self@[0],
    {
        self.bytes[0]
    }

    /// The last byte, which seals the other seven.
    pub fn checksum_byte(&self) -> (crc: u8)
        ensures
            crc == self@[7],
    {
        self.bytes[7]
    }

    /// Checks the seal.
    pub fn is_valid(&self) -> (ok: bool)
        ensures
            ok == self.valid(),
    {
        check_seal(self.bytes.as_slice())
    }

    /// Slot `i` of the address.
    pub fn bit(&self, i: u8) -> (bit: bool)
        requires
            i < 64,
        ensures
            bit == self.bits()[i as int],
    {
        get_bit(self.bytes[(i / 8) as usize], i % 8)
    }

    /// The address whose 64 slots are `slots`.
    pub fn from_bits(slots: &[bool; 64]) -> (address: Self)
        ensures
            address.bits() == slots@,
            address == DeviceAddress::with_bits(slots@),
    {
        let mut bytes = [0u8; 8];
        let mut i: u8 = 0;
        while i < 64
            invariant
                i <= 64,
                forall|j: int| 0 <= j < i ==> slot_of(bytes@, j) == slots@[j],
            decreases 64 - i,
        {
            let ghost before = bytes@;
            let at = (i / 8) as usize;
            let updated = with_bit(bytes[at], i % 8, slots[i as usize]);
            bytes[at] = updated;
            proof {
                assert forall|j: int| 0 <= j < i + 1 implies slot_of(bytes@, j) == slots@[j] by {
                    if j < i {
                        assert(slot_of(before, j) == slots@[j]);
                        if j / 8 == i as int / 8 {
                            assert((j % 8) as u8 != i % 8);
                            assert(bit_of(updated, (j % 8) as u8) == bit_of(
                                before[j / 8],
                                (j % 8) as u8,
                            ));
                        }
                    }
                }
            }
            i = i + 1;
        }
        let address = DeviceAddress { bytes };
        assert(address.bits() =~= slots@);
        proof {
            lemma_bits_determine_address(address, DeviceAddress::with_bits(slots@));
        }
        address
    }

    /// The 64 slots of the address.
    pub fn to_bits(&self) -> (slots: [bool; 64])
        ensures
            slots@ == self.bits(),
    {
        let mut slots = [false; 64];
        let mut i: u8 = 0;
        while i < 64
            invariant
                i <= 64,
                forall|j: int| 0 <= j < i ==> slots@[j] == self.bits()[j],
            decreases 64 - i,
        {
            slots[i as usize] = self.bit(i);
            i = i + 1;
        }
        assert(slots@ =~= self.bits());
        slots
    }
}

/// Two addresses with the same 64 slots are the same address.
pub proof fn lemma_bits_determine_address(a: DeviceAddress, b: DeviceAddress)
    requires
        a.bits() == b.bits(),
    ensures
        a@ == b@,
        a == b,
{
    assert forall|n: int| 0 <= n < 8 implies a@[n] == b@[n] by {
        assert forall|k: u8| k < 8 implies bit_of(a@[n], k) == bit_of(b@[n], k) by {
            let i = 8 * n + k;
            assert(i / 8 == n && (i % 8) as u8 == k);
            assert(a.bits()[i] == slot_of(a@, i));
            assert(b.bits()[i] == slot_of(b@, i));
        }
        lemma_bits_determine_byte(a@[n], b@[n]);
    }
    assert(a@ =~= b@);
    assert(a.bytes =~= b.bytes);
}

/// An address is the address of its own slots.
pub proof fn lemma_with_own_bits(a: DeviceAddress)
    ensures
        DeviceAddress::with_bits(a.bits()) == a,
{
    lemma_bits_determine_address(DeviceAddress::with_bits(a.bits()), a);
}

} // verus!
