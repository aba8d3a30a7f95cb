//! Addresses: the 32-byte keys under which the ledger stores its records.
//! The same kind of key names a participant (a contestant or a voter).

use vstd::bytes::{lemma_auto_spec_u64_to_from_le_bytes, spec_u64_to_le_bytes, u64_to_le_bytes};
use vstd::prelude::*;

verus! {

/// A ledger address, or the identity of a participant.
#[derive(Clone, Copy, Debug)]
pub struct Address {
    pub bytes: [u8; 32],
}

impl View for Address {
    type V = Seq<u8>;

    open spec fn view(&self) -> Seq<u8> {
        self.bytes@
    }
}

/// The address with the given serial number: the number in its first eight
/// bytes, least significant first, and zero in the others.
pub open spec fn serial_address(serial: u64) -> Seq<u8> {
    spec_u64_to_le_bytes(serial) + Seq::new(24, |i: int| 0u8)
}

/// Different serial numbers have different addresses.
pub proof fn lemma_serial_address_injective(a: u64, b: u64)
    requires
        serial_address(a) == serial_address(b),
    ensures
        a == b,
{
    lemma_auto_spec_u64_to_from_le_bytes();
    assert(serial_address(a).subrange(0, 8) =~= spec_u64_to_le_bytes(a));
    assert(serial_address(b).subrange(0, 8) =~= spec_u64_to_le_bytes(b));
}

impl Address {
    /// The address with the given serial number.
    pub fn serial(serial: u64) -> (a: Address)
        ensures
            a@ == serial_address(serial),
    {
        let low = u64_to_le_bytes(serial);
        let mut bytes = [0u8; 32];
        let mut i: usize = 0;
        while i < 8
            invariant
                i <= 8,
                low@.len() == 8,
                forall|j: int| 0 <= j < i ==> bytes[j] == low[j],
                forall|j: int| i <= j < 32 ==> bytes[j] == 0,
            decreases 8 - i,
        {
            bytes[i] = low[i];
            i += 1;
        }
        proof {
            assert(bytes@ =~= serial_address(serial));
        }
        Address { bytes }
    }

    /// The address made of the given bytes.
    pub fn new(bytes: [u8; 32]) -> (a: Address)
        ensures
            a@ == bytes@,
            a.bytes == bytes,
    {
        Address { bytes }
    }

    /// The bytes of the address.
    pub fn to_bytes(&self) -> (bytes: [u8; 32])
        ensures
            bytes@ == self@,
            bytes == self.bytes,
    {
        self.bytes
    }
}

impl PartialEq for Address {
    fn eq(&self, other: &Address) -> (equal: bool) {
        let mut i: usize = 0;
        while i < 32
            invariant
                i <= 32,
                forall|j: int| 0 <= j < i ==> self.bytes[j] == other.bytes[j],
            decreases 32 - i,
        {
            if self.bytes[i] != other.bytes[i] {
                return false;
            }
            i += 1;
        }
        proof {
            assert(self.bytes@ =~= other.bytes@);
        }
        true
    }
}

impl Eq for Address {

}

impl vstd::std_specs::cmp::PartialEqSpecImpl for Address {
    open spec fn obeys_eq_spec() -> bool {
        true
    }

    open spec fn eq_spec(&self, other: &Address) -> bool {
        self@ == other@
    }
}

} // verus!
