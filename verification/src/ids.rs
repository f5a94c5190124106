//! Identifiers of connections and seats.

use vstd::arithmetic::power::pow;
use vstd::prelude::*;

verus! {

/// A 128 bit identifier: of a live connection, or of a seat that outlives connections.
#[derive(Clone, Copy, Debug, PartialEq, Eq, Hash, Structural)]
pub struct Uuid(pub u128);

/// The layout of a random identifier: version nibble four, variant bits one and zero.
pub open spec fn is_random_layout(bits: u128) -> bool {
    &&& (bits >> 76) & 0xf == 4
    &&& (bits >> 62) & 0x3 == 2
}

/// The character of a hexadecimal digit.
pub open spec fn hex_char(d: nat) -> char {
    if d < 10 {
        (d + 48) as char
    } else {
        (d + 87) as char
    }
}

/// The hexadecimal digit of `bits` at position `k`, counted from the top of 32.
pub open spec fn hex_digit_at(bits: u128, k: int) -> nat {
    (bits as int / pow(16, (31 - k) as nat) % 16) as nat
}

/// The text form of an identifier: lower case hexadecimal digits in groups of 8, 4, 4, 4 and 12,
/// with hyphens between the groups.
pub open spec fn hyphenated(bits: u128) -> Seq<char> {
    Seq::new(
        36,
        |i: int|
            if i == 8 || i == 13 || i == 18 || i == 23 {
                '-'
            } else {
                let hyphens_before = (if i > 8 { 1int } else { 0 }) + (if i > 13 { 1int } else { 0 })
                    + (if i > 18 { 1int } else { 0 }) + (if i > 23 { 1int } else { 0 });
                hex_char(hex_digit_at(bits, i - hyphens_before))
            },
    )
}

/// Calls `uuid::Uuid::new_v4`, which fills an identifier with random bits and then sets the
/// version to four and the variant to the RFC one. Nothing else is known of the bits.
#[verifier::external_body]
fn random_bits() -> (res: u128)
    ensures
        is_random_layout(res),
{
    uuid::Uuid::new_v4().as_u128()
}

/// Calls the `Display` of `uuid::Uuid`, which writes the hyphenated form in lower case.
#[verifier::external_body]
fn hyphenated_text(bits: u128) -> (res: String)
    ensures
        res@ == hyphenated(bits),
{
    uuid::Uuid::from_u128(bits).to_string()
}

impl Uuid {
    /// A fresh random identifier.
    pub fn new_v4() -> (res: Uuid)
        ensures
            is_random_layout(res.0),
    {
        Uuid(random_bits())
    }

    /// The identifier with all bits clear.
    pub fn nil() -> (res: Uuid)
        ensures
            res == Uuid(0),
    {
        Uuid(0)
    }

    /// The hyphenated text form.
    pub fn to_text(self) -> (res: String)
        ensures
            res@ == hyphenated(self.0),
    {
        hyphenated_text(self.0)
    }
}

/// A random identifier is never the nil one.
pub proof fn random_is_not_nil(id: Uuid)
    requires
        is_random_layout(id.0),
    ensures
        id != Uuid(0),
{
    let bits = id.0;
    assert(bits != 0u128) by (bit_vector)
        requires
            (bits >> 76) & 0xf == 4,
    ;
}

} // verus!
