//! Diffie-Hellman key exchange.

use vstd::prelude::*;

verus! {

/// What `x25519_dalek::x25519` returns for a secret key and the coordinate of a point.
pub uninterp spec fn x25519(secret: Seq<u8>, point: Seq<u8>) -> Seq<u8>;

/// The base point of the key exchange.
pub open spec fn base_point() -> Seq<u8> {
    seq![9u8] + Seq::new(31, |i: int| 0u8)
}

/// The public key of a secret key.
pub open spec fn public_key_of(secret: Seq<u8>) -> Seq<u8> {
    x25519(secret, base_point())
}

/// `x25519_dalek::x25519` computes the Diffie-Hellman function of a secret key and the coordinate of
/// a point.
///
/// If that coordinate is the public key of another secret key, the result is what the owner of that
/// other key obtains from the public key of this one. Nothing else is stated of the result.
#[verifier::external_body]
fn diffie_hellman(secret: &[u8; 32], point: &[u8; 32]) -> (r: [u8; 32])
    ensures
        r@ == x25519(secret@, point@),
        forall|other: Seq<u8>|
            #![trigger public_key_of(other)]
            other.len() == 32 && point@ == public_key_of(other) ==> r@ == x25519(other, public_key_of(secret@)),
{
    x25519_dalek::x25519(*secret, *point)
}

/// `rand_core::OsRng` fills the secret key with bytes of which nothing is known in advance.
#[verifier::external_body]
fn random_secret() -> (r: [u8; 32]) {
    let mut secret = [0u8; 32];
    rand_core::RngCore::fill_bytes(&mut rand_core::OsRng, &mut secret);
    secret
}

/// A Diffie-Hellman secret key that is used for one link.
pub struct SecretKey {
    /// The key.
    bytes: [u8; 32],
}

impl View for SecretKey {
    type V = Seq<u8>;

    closed spec fn view(&self) -> Seq<u8> {
        self.bytes@
    }
}

impl SecretKey {
    /// Generates a new secret key.
    pub fn generate() -> (r: Self)
        ensures
            r@.len() == 32,
    {
        SecretKey { bytes: random_secret() }
    }

    /// The secret key that consists of the specified bytes.
    pub fn from_bytes(bytes: [u8; 32]) -> (r: Self)
        ensures
            r@ == bytes@,
    {
        SecretKey { bytes }
    }

    /// The public key.
    pub fn public_key(&self) -> (r: [u8; 32])
        ensures
            r@ == public_key_of(self@),
    {
        let base: [u8; 32] = [
            9, 0, 0, 0, 0, 0, 0, 0, 0, 0, 0, 0, 0, 0, 0, 0, 0, 0, 0, 0, 0, 0, 0, 0, 0, 0, 0, 0, 0, 0, 0, 0,
        ];
        assert(base@ =~= base_point());
        diffie_hellman(&self.bytes, &base)
    }

    /// The secret shared with the owner of the specified public key.
    ///
    /// The owner of that public key obtains the same from the public key of this secret key.
    pub fn shared_secret(&self, public_key: &[u8; 32]) -> (r: [u8; 32])
        ensures
            r@ == x25519(self@, public_key@),
            forall|other: Seq<u8>|
                #![trigger public_key_of(other)]
                other.len() == 32 && public_key@ == public_key_of(other) ==> r@ == x25519(
                    other,
                    public_key_of(self@),
                ),
    {
        diffie_hellman(&self.bytes, public_key)
    }
}

} // verus!
