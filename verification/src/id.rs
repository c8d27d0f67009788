//! Unique identifiers.
//!
//! All identifiers are generated automatically from random numbers
//! and managed internally.

use crate::buf::be_value;
use std::num::NonZeroU128;
use vstd::prelude::*;

verus! {

/// Connection identifier.
#[derive(Debug, Clone, Copy, PartialEq, Eq, PartialOrd, Ord, Hash, Structural)]
pub struct ConnId(pub u128);

/// Link identifier.
#[derive(Debug, Clone, Copy, PartialEq, Eq, PartialOrd, Ord, Hash, Structural)]
pub struct LinkId(pub u128);

/// Server identifier.
///
/// It is never zero.
#[derive(Debug, Clone, Copy, PartialEq, Eq, PartialOrd, Ord, Hash, Structural)]
pub struct ServerId(pub u128);

/// A connection identifier encrypted for transmission over a link.
#[derive(Debug, Clone, Copy, PartialEq, Eq, Hash, Structural)]
pub struct EncryptedConnId(pub u128);

/// `rand::random` draws a number of which nothing is known in advance.
#[verifier::external_body]
fn random_u128() -> u128 {
    rand::random()
}

/// `rand::random` never draws zero when asked for a `NonZeroU128`.
#[verifier::external_body]
fn random_nonzero_u128() -> (r: u128)
    ensures
        r != 0,
{
    rand::random::<NonZeroU128>().get()
}

/// The lower case hexadecimal digit of a value below sixteen.
pub open spec fn hex_digit(n: nat) -> char {
    if n < 10 {
        ('0' as int + n) as char
    } else {
        ('a' as int + n - 10) as char
    }
}

/// The `width` lowest hexadecimal digits of a number.
pub open spec fn hex_digits(n: nat, width: nat) -> Seq<char>
    decreases width,
{
    if width == 0 {
        Seq::empty()
    } else {
        hex_digits(n / 16, (width - 1) as nat).push(hex_digit(n % 16))
    }
}

/// How many hexadecimal digits a number has; zero has none.
pub open spec fn hex_width(n: nat) -> nat
    decreases n,
{
    if n == 0 {
        0
    } else {
        hex_width(n / 16) + 1
    }
}

/// The text of an identifier: its hexadecimal digits, with leading zeros
/// added up to sixteen digits.
pub open spec fn id_text(n: u128) -> Seq<char> {
    hex_digits(n as nat, if hex_width(n as nat) < 16 { 16 } else { hex_width(n as nat) })
}

/// `format!` with the `016x` format writes the lower case hexadecimal digits of a number,
/// padded with zeros to a width of at least sixteen.
#[verifier::external_body]
pub(crate) fn format_id(n: u128) -> (r: String)
    ensures
        r@ == id_text(n),
{
    format!("{:016x}", n)
}

impl ConnId {
    /// Generates a new connection id.
    pub fn generate() -> Self {
        ConnId(random_u128())
    }

    /// Text of this identifier.
    pub fn text(&self) -> (r: String)
        ensures
            r@ == id_text(self.0),
    {
        format_id(self.0)
    }
}

impl LinkId {
    /// Generates a new link id.
    pub fn generate() -> Self {
        LinkId(random_u128())
    }

    /// Text of this identifier.
    pub fn text(&self) -> (r: String)
        ensures
            r@ == id_text(self.0),
    {
        format_id(self.0)
    }
}

impl ServerId {
    /// Whether this is a valid server identifier.
    pub open spec fn wf(self) -> bool {
        self.0 != 0
    }

    /// Generates a new server id.
    pub fn generate() -> (r: Self)
        ensures
            r.wf(),
    {
        ServerId(random_nonzero_u128())
    }

    /// Text of this identifier.
    pub fn text(&self) -> (r: String)
        ensures
            r@ == id_text(self.0),
    {
        format_id(self.0)
    }
}

/// The key by which connection identifiers are encrypted:
/// the first sixteen bytes of the shared secret as a number.
pub open spec fn conn_id_key(secret: Seq<u8>) -> u128 {
    be_value(secret.take(16)) as u128
}

/// `u128::from_be_bytes` reads sixteen bytes as a number, most significant byte first.
#[verifier::external_body]
fn u128_from_be_bytes(bytes: [u8; 16]) -> (r: u128)
    ensures
        r == be_value(bytes@),
{
    u128::from_be_bytes(bytes)
}

/// Computes the key by which connection identifiers are encrypted.
fn compute_conn_id_key(secret: &[u8; 32]) -> (r: u128)
    ensures
        r == conn_id_key(secret@),
{
    let first: [u8; 16] = [
        secret[0], secret[1], secret[2], secret[3], secret[4], secret[5], secret[6], secret[7],
        secret[8], secret[9], secret[10], secret[11], secret[12], secret[13], secret[14], secret[15],
    ];
    assert(first@ =~= secret@.take(16));
    u128_from_be_bytes(first)
}

impl EncryptedConnId {
    /// Encrypts a connection identifier using the secret shared by both endpoints of a link.
    pub fn new(conn_id: ConnId, secret: &[u8; 32]) -> (r: Self)
        ensures
            r.0 == conn_id.0 ^ conn_id_key(secret@),
    {
        EncryptedConnId(conn_id.0 ^ compute_conn_id_key(secret))
    }

    /// Decrypts the connection identifier using the secret shared by both endpoints of a link.
    pub fn decrypt(&self, secret: &[u8; 32]) -> (r: ConnId)
        ensures
            r.0 == self.0 ^ conn_id_key(secret@),
    {
        ConnId(self.0 ^ compute_conn_id_key(secret))
    }
}

/// Decrypting an encrypted connection identifier with the same secret gives back the identifier.
pub proof fn law_decrypt_inverts_encrypt(conn_id: ConnId, secret: Seq<u8>)
    ensures
        (conn_id.0 ^ conn_id_key(secret)) ^ conn_id_key(secret) == conn_id.0,
{
    let id: u128 = conn_id.0;
    let key: u128 = conn_id_key(secret);
    assert((id ^ key) ^ key == id) by (bit_vector);
}

} // verus!
