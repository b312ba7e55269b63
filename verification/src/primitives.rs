//! Opaque identity and crypto values: public keys, signatures and content
//! hashes. The engine never inspects them; it only compares them for
//! equality and carries them through, so they are modelled as plain byte
//! strings.

use vstd::prelude::*;

verus! {

/// Number of votes a member controls.
pub type VotingPower = u64;

/// Milliseconds since the Unix epoch.
pub type Timestamp = i64;

/// Unique, human-readable identifier of a member.
pub type MemberName = String;

/// Height of a block in the chain.
pub type BlockHeight = u64;

/// A member's public identity. Compared only for equality.
#[derive(Clone, Debug, PartialEq, Eq, Hash)]
pub struct PublicKey {
    pub bytes: Vec<u8>,
}

impl View for PublicKey {
    type V = Seq<u8>;

    open spec fn view(&self) -> Seq<u8> {
        self.bytes@
    }
}

impl PublicKey {
    /// The distinguished all-empty key, used as the author of the genesis
    /// block header.
    pub fn zero() -> (r: Self)
        ensures
            r@ == Seq::<u8>::empty(),
    {
        let r = PublicKey { bytes: Vec::new() };
        proof {
            assert(r@ =~= Seq::<u8>::empty());
        }
        r
    }

    /// A fresh key holding the same identity.
    pub fn duplicate(&self) -> (r: Self)
        ensures
            r@ == self@,
    {
        PublicKey { bytes: self.bytes.clone() }
    }

    /// Whether two keys denote the same identity.
    pub fn key_eq(&self, other: &PublicKey) -> (r: bool)
        ensures
            r == (self@ == other@),
    {
        let r = self.bytes == other.bytes;
        proof {
            if self.bytes@.len() == other.bytes@.len()
                && (forall|i: int| 0 <= i < self.bytes@.len() ==> self.bytes@[i] == other.bytes@[i]) {
                assert(self@ =~= other@);
            }
        }
        r
    }
}

/// A member's private key. The engine never uses it; it exists so that a
/// keypair can be carried around as a value.
#[derive(Clone, Debug, PartialEq, Eq, Hash)]
pub struct PrivateKey {
    pub bytes: Vec<u8>,
}

/// A signature over some serialized payload. The engine treats it as an
/// opaque proof already checked by the transaction-validity layer.
#[derive(Clone, Debug, PartialEq, Eq, Hash)]
pub struct Signature {
    pub bytes: Vec<u8>,
}

impl Signature {
    /// A fresh signature value holding the same bytes.
    pub fn duplicate(&self) -> (r: Self)
        ensures
            r.bytes@ == self.bytes@,
    {
        Signature { bytes: self.bytes.clone() }
    }
}

/// A 256-bit content hash, modelled as its bytes.
#[derive(Clone, Debug, PartialEq, Eq, Hash)]
pub struct Hash256 {
    pub bytes: Vec<u8>,
}

impl View for Hash256 {
    type V = Seq<u8>;

    open spec fn view(&self) -> Seq<u8> {
        self.bytes@
    }
}

impl Hash256 {
    /// The all-zero hash, used in the genesis block header.
    pub fn zero() -> (r: Self)
        ensures
            r@.len() == 32,
            forall|i: int| 0 <= i < 32 ==> r@[i] == 0u8,
    {
        let mut bytes: Vec<u8> = Vec::new();
        let mut i: usize = 0;
        while i < 32
            invariant
                i <= 32,
                bytes@.len() == i,
                forall|j: int| 0 <= j < i ==> bytes@[j] == 0u8,
            decreases 32 - i,
        {
            bytes.push(0u8);
            i += 1;
        }
        Hash256 { bytes }
    }

    /// A fresh hash value holding the same bytes.
    pub fn duplicate(&self) -> (r: Self)
        ensures
            r@ == self@,
    {
        Hash256 { bytes: self.bytes.clone() }
    }
}

} // verus!
