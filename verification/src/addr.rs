//! Canonical account identifiers. The external address resolver turns a
//! human-facing reference into a canonical byte string; the ledger treats
//! that string as opaque and only requires that it fits the key layout.

use vstd::prelude::*;
use crate::error::TokenError;

verus! {

/// A canonical account identifier: an opaque, non-empty byte string of at
/// most 255 bytes, so that it can be framed inside a structured storage key.
#[derive(Debug)]
pub struct Addr {
    bytes: Vec<u8>,
}

impl View for Addr {
    type V = Seq<u8>;

    closed spec fn view(&self) -> Seq<u8> {
        self.bytes@
    }
}

impl Addr {
    /// The identifier fits the ledger's key layout.
    pub open spec fn wf(&self) -> bool {
        1 <= self@.len() <= 255
    }

    /// Accepts a canonical identifier as handed over by the address
    /// resolver; refuses byte strings the key layout cannot frame.
    pub fn canonical(bytes: Vec<u8>) -> (r: Result<Addr, TokenError>)
        ensures
            (match r {
                Ok(a) => a@ == bytes@ && a.wf(),
                Err(e) => {
                    &&& !(1 <= bytes@.len() <= 255)
                    &&& e == (TokenError::AddressResolution { length: bytes@.len() as usize })
                },
            }),
    {
        if bytes.len() == 0 || bytes.len() > 255 {
            Err(TokenError::AddressResolution { length: bytes.len() })
        } else {
            Ok(Addr { bytes })
        }
    }

    /// The canonical bytes of this identifier.
    pub fn as_bytes(&self) -> (r: &Vec<u8>)
        ensures
            r@ == self@,
    {
        &self.bytes
    }

    /// An owned copy of this identifier.
    pub fn duplicate(&self) -> (r: Addr)
        ensures
            r@ == self@,
    {
        let bytes = self.bytes.clone();
        proof {
            assert(bytes@ =~= self.bytes@);
        }
        Addr { bytes }
    }

    /// An owned copy of the canonical bytes.
    pub fn to_bytes(&self) -> (r: Vec<u8>)
        ensures
            r@ == self@,
    {
        let bytes = self.bytes.clone();
        proof {
            assert(bytes@ =~= self.bytes@);
        }
        bytes
    }

    /// Whether two identifiers name the same account.
    pub fn same(&self, other: &Addr) -> (r: bool)
        ensures
            r == (self@ == other@),
    {
        let r = self.bytes == other.bytes;
        proof {
            if r {
                assert(self.bytes@ =~= other.bytes@);
            }
        }
        r
    }
}

} // verus!
