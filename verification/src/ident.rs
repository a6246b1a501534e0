//! Identifiers of records.

use vstd::prelude::*;

verus! {

/// The random identifiers: version 4, of the variant that RFC 9562 describes.
pub open spec fn is_random_id(id: u128) -> bool {
    &&& id / 0x1000_0000_0000_0000_0000 % 16 == 4
    &&& id / 0x4000_0000_0000_0000 % 4 == 2
}

/// The lower case hexadecimal digit for `d`.
pub open spec fn hex_char(d: int) -> char {
    seq!['0', '1', '2', '3', '4', '5', '6', '7', '8', '9', 'a', 'b', 'c', 'd', 'e', 'f'][d]
}

/// The hexadecimal digit of `id` at `place`, counted from the lowest.
pub open spec fn hex_at(id: int, place: nat) -> int {
    id / vstd::arithmetic::power::pow(16, place) % 16
}

/// The text of an identifier: its 32 hexadecimal digits, with a hyphen after
/// the eighth, the twelfth, the sixteenth and the twentieth.
pub open spec fn id_text(id: u128) -> Seq<char> {
    let digit = |n: int| hex_char(hex_at(id as int, (31 - n) as nat));
    Seq::new(8, |i: int| digit(i)) + seq!['-'] + Seq::new(4, |i: int| digit(i + 8)) + seq!['-']
        + Seq::new(4, |i: int| digit(i + 12)) + seq!['-'] + Seq::new(4, |i: int| digit(i + 16))
        + seq!['-'] + Seq::new(12, |i: int| digit(i + 20))
}

/// `uuid::Uuid::new_v4`: a random identifier. Nothing is said of its other
/// bits.
#[verifier::external_body]
pub(crate) fn new_id() -> (r: u128)
    ensures
        is_random_id(r),
{
    uuid::Uuid::new_v4().as_u128()
}

/// The `Display` of `uuid::Uuid`: the digits in lower case, with hyphens.
#[verifier::external_body]
pub(crate) fn text_of_id(id: u128) -> (r: String)
    ensures
        r@ == id_text(id),
{
    uuid::Uuid::from_u128(id).to_string()
}

} // verus!
