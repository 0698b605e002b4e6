use vstd::prelude::*;

use crate::encryption::ChipaError;

verus! {

/// The closed set of container-format versions.  Each version selects one
/// concrete implementation of the encryption capability; the numeric tag
/// below is what stands, big-endian, in the first two bytes of a container
/// file.  Unknown tags fail closed: `from_u16` accepts exactly the numbers
/// that `spec_u16` produces.
#[derive(Clone, Copy, PartialEq, Eq, Structural, Debug)]
pub enum Version {
    V1,
}

impl Version {
    /// The numeric tag of this version.
    pub open spec fn spec_u16(self) -> u16 {
        match self {
            Version::V1 => 1,
        }
    }

    /// Which version a numeric tag selects; `None` for every unknown tag.
    pub open spec fn spec_of_u16(n: u16) -> Option<Version> {
        if n == 1 {
            Some(Version::V1)
        } else {
            None
        }
    }

    /// The tag in big-endian byte order.
    pub open spec fn spec_be_bytes(self) -> Seq<u8> {
        seq![(self.spec_u16() / 256) as u8, (self.spec_u16() % 256) as u8]
    }

    pub fn to_u16(self) -> (r: u16)
        ensures
            r == self.spec_u16(),
    {
        match self {
            Version::V1 => 1,
        }
    }

    /// Maps a numeric tag back to a version.  An unrecognized tag is a
    /// decryption-class failure: no scheme can be selected for it.
    pub fn from_u16(n: u16) -> (r: Result<Version, ChipaError>)
        ensures
            Self::spec_of_u16(n) matches Some(v) ==> (r matches Ok(v2) && v2 == v),
            Self::spec_of_u16(n) is None ==> (r matches Err(e) && e is Decryption),
    {
        if n == 1 {
            Ok(Version::V1)
        } else {
            Err(ChipaError::Decryption(String::from_str("unsupported version tag")))
        }
    }

    pub fn be_bytes(self) -> (r: Vec<u8>)
        ensures
            r@ == self.spec_be_bytes(),
    {
        let n = self.to_u16();
        let mut out: Vec<u8> = Vec::new();
        out.push((n / 256) as u8);
        out.push((n % 256) as u8);
        assert(out@ =~= self.spec_be_bytes());
        out
    }

    /// The tag encoded by `spec_be_bytes` parses back to the same version:
    /// the two bytes determine the tag, and the tag is one of the known ones.
    pub proof fn lemma_be_bytes_roundtrip(self)
        ensures
            self.spec_be_bytes().len() == 2,
            Self::spec_of_u16(
                (self.spec_be_bytes()[0] * 256 + self.spec_be_bytes()[1]) as u16,
            ) == Some(self),
    {
    }
}

} // verus!
