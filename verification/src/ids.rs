//! Ids as text.

use vstd::arithmetic::power::pow;
use vstd::prelude::*;

verus! {

/// The digit for a number below sixteen, in lower case.
pub open spec fn hex_digit(d: int) -> char {
    if d < 10 {
        (48 + d) as char
    } else {
        (87 + d) as char
    }
}

/// Which of the 32 hexadecimal digits of an id stands at position `i` of its text.
pub open spec fn digit_index(i: int) -> int {
    if i < 8 {
        i
    } else if i < 13 {
        i - 1
    } else if i < 18 {
        i - 2
    } else if i < 23 {
        i - 3
    } else {
        i - 4
    }
}

/// An id as text: its 32 hexadecimal digits, the highest first, with hyphens between groups of 8,
/// 4, 4, 4 and 12.
pub open spec fn id_view(id: u128) -> Seq<char> {
    Seq::new(
        36,
        |i: int|
            if i == 8 || i == 13 || i == 18 || i == 23 {
                '-'
            } else {
                hex_digit((id as int / pow(16, (31 - digit_index(i)) as nat)) % 16)
            },
    )
}

/// `uuid::Uuid::from_u128`, then its `Display`: the hyphenated form in lower case.
#[verifier::external_body]
pub(crate) fn id_text(id: u128) -> (r: String)
    ensures
        r@ == id_view(id),
{
    uuid::Uuid::from_u128(id).to_string()
}

} // verus!
