//! Identifiers and points in time.

use vstd::prelude::*;

use crate::numbers::{all_digits, digits_value};
use crate::text::{concat, finishes_with};

verus! {

/// The characters of hexadecimal numbers in lower case.
pub open spec fn is_hex_digit(c: char) -> bool {
    '0' <= c <= '9' || 'a' <= c <= 'f'
}

/// Whether a text has the form of a random identifier: groups of 8, 4, 4, 4 and 12 hexadecimal
/// digits with hyphens between them, with the marks of a random one.
pub open spec fn is_random_id(s: Seq<char>) -> bool {
    &&& s.len() == 36
    &&& forall|i: int|
        0 <= i < 36 ==> if i == 8 || i == 13 || i == 18 || i == 23 {
            #[trigger] s[i] == '-'
        } else {
            is_hex_digit(s[i])
        }
    &&& s[14] == '4'
    &&& s[19] == '8' || s[19] == '9' || s[19] == 'a' || s[19] == 'b'
}

/// `uuid::Uuid::new_v4` makes a random identifier and `to_string` writes it in groups of 8, 4,
/// 4, 4 and 12 hexadecimal digits in lower case, with hyphens between them. The first digit of
/// the third group is 4, that of the fourth is 8, 9, a or b. Which digits the others are is left to
/// chance.
#[verifier::external_body]
fn random_id() -> (r: String)
    ensures
        is_random_id(r@),
{
    uuid::Uuid::new_v4().to_string()
}

/// Whether digits make up a number from 1970 on.
pub open spec fn is_year_number(digits: Seq<char>) -> bool {
    all_digits(digits) && digits_value(digits) >= 1970
}

/// Whether a text is a year since 1970: four digits, or more with a plus sign before them.
pub open spec fn is_year(s: Seq<char>) -> bool {
    ||| s.len() == 4 && is_year_number(s)
    ||| s.len() > 5 && s[0] == '+' && is_year_number(s.skip(1))
}

/// Whether two digits stand at `i` that make up a number from `least` to `most`.
pub open spec fn has_number(s: Seq<char>, i: int, least: nat, most: nat) -> bool {
    &&& 0 <= i && i + 2 <= s.len()
    &&& all_digits(s.subrange(i, i + 2))
    &&& least <= digits_value(s.subrange(i, i + 2)) <= most
}

/// Whether a text is a fraction of a second: nothing, or a point with three, six or nine digits
/// behind it.
pub open spec fn is_fraction(s: Seq<char>) -> bool {
    ||| s.len() == 0
    ||| (s.len() == 4 || s.len() == 7 || s.len() == 10) && s[0] == '.' && all_digits(s.skip(1))
}

/// Whether a text is a time in universal time whose date ends before the `T` at `t`.
pub open spec fn is_timestamp_at(s: Seq<char>, t: int) -> bool {
    &&& t >= 10 && t + 15 <= s.len()
    &&& is_year(s.take(t - 6))
    &&& s[t - 6] == '-'
    &&& has_number(s, t - 5, 1, 12)
    &&& s[t - 3] == '-'
    &&& has_number(s, t - 2, 1, 31)
    &&& s[t] == 'T'
    &&& has_number(s, t + 1, 0, 23)
    &&& s[t + 3] == ':'
    &&& has_number(s, t + 4, 0, 59)
    &&& s[t + 6] == ':'
    &&& has_number(s, t + 7, 0, 59)
    &&& is_fraction(s.subrange(t + 9, s.len() - 6))
    &&& finishes_with(s, "+00:00"@)
}

/// Whether a text is a time in universal time: year, month and day, a `T`, hour, minute and second
/// with a fraction where there is one, and the offset `+00:00`.
pub open spec fn is_timestamp(s: Seq<char>) -> bool {
    exists|t: int| #[trigger] is_timestamp_at(s, t)
}

/// `chrono::Utc::now` reads the clock and `to_rfc3339` writes the time in universal time: the
/// year in four digits, or with a sign where it needs more, month and day, a `T`, hour, minute and
/// second, a fraction in three, six or nine digits unless it is zero, and the offset `+00:00`.
/// Which time it is, is not said. The call needs a clock that stands neither before 1970 nor so
/// late that `chrono` cannot hold the date.
#[verifier::external_body]
fn current_time() -> (r: String)
    ensures
        is_timestamp(r@),
{
    chrono::Utc::now().to_rfc3339()
}

/// The present time.
pub fn now_iso() -> (r: String)
    ensures
        is_timestamp(r@),
{
    current_time()
}

/// An identifier for a new project.
pub fn new_project_id() -> (r: String)
    ensures
        is_random_id(r@),
{
    random_id()
}

/// The extension of a file that holds something until it is complete.
pub fn temporary_extension() -> (r: String)
    ensures
        exists|id: Seq<char>| #[trigger] is_random_id(id) && r@ == id + ".tmp"@,
{
    let id = random_id();
    concat(id.as_str(), ".tmp")
}

} // verus!
