//! The digest that names a sealed image.

use vstd::prelude::*;

verus! {

/// A digest by SHA-512, in hexadecimal digits.
#[derive(Debug, Clone, PartialEq, Eq)]
pub struct VerityDigest {
    pub hex: String,
}

impl VerityDigest {
    /// The digest of those digits.
    pub fn from_hex(hex: &str) -> (r: VerityDigest)
        ensures
            r.hex@ == hex@,
    {
        VerityDigest { hex: hex.to_owned() }
    }

    /// The bare digits.
    pub fn as_hex(&self) -> (r: &str)
        ensures
            r@ == self.hex@,
    {
        self.hex.as_str()
    }
}

} // verus!
