//! Big-endian octet conversion: a fixed-width unsigned integer as its
//! bytes, most significant first, for serializing numeric header fields
//! consistently regardless of host byte order.

use vstd::prelude::*;

verus! {

/// Convert value to byte array
pub trait Octets {
    /// Output type - bytes array
    type Output: View<V = Seq<u8>>;

    /// The bytes of the value, most significant first.
    spec fn octets_spec(&self) -> Seq<u8>;

    /// Return value as bytes (big-endian order)
    fn octets(&self) -> (r: Self::Output)
        ensures
            r@ == self.octets_spec(),
    ;
}

impl Octets for u64 {
    type Output = [u8; 8];

    open spec fn octets_spec(&self) -> Seq<u8> {
        seq![
            (*self >> 56) as u8,
            (*self >> 48) as u8,
            (*self >> 40) as u8,
            (*self >> 32) as u8,
            (*self >> 24) as u8,
            (*self >> 16) as u8,
            (*self >> 8) as u8,
            *self as u8,
        ]
    }

    fn octets(&self) -> (r: [u8; 8]) {
        let r = [
            (*self >> 56) as u8,
            (*self >> 48) as u8,
            (*self >> 40) as u8,
            (*self >> 32) as u8,
            (*self >> 24) as u8,
            (*self >> 16) as u8,
            (*self >> 8) as u8,
            *self as u8,
        ];
        proof {
            assert(r@ =~= self.octets_spec());
        }
        r
    }
}

impl Octets for u32 {
    type Output = [u8; 4];

    open spec fn octets_spec(&self) -> Seq<u8> {
        seq![(*self >> 24) as u8, (*self >> 16) as u8, (*self >> 8) as u8, *self as u8]
    }

    fn octets(&self) -> (r: [u8; 4]) {
        let r = [(*self >> 24) as u8, (*self >> 16) as u8, (*self >> 8) as u8, *self as u8];
        proof {
            assert(r@ =~= self.octets_spec());
        }
        r
    }
}

impl Octets for u16 {
    type Output = [u8; 2];

    open spec fn octets_spec(&self) -> Seq<u8> {
        seq![(*self >> 8) as u8, *self as u8]
    }

    fn octets(&self) -> (r: [u8; 2]) {
        let r = [(*self >> 8) as u8, *self as u8];
        proof {
            assert(r@ =~= self.octets_spec());
        }
        r
    }
}

impl Octets for u8 {
    type Output = [u8; 1];

    open spec fn octets_spec(&self) -> Seq<u8> {
        seq![*self]
    }

    fn octets(&self) -> (r: [u8; 1]) {
        let r = [*self];
        proof {
            assert(r@ =~= self.octets_spec());
        }
        r
    }
}

} // verus!
