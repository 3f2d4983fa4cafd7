//! The calls this library makes into other crates and into unspecified parts
//! of std, each with the contract it relies on.

use vstd::prelude::*;
use vstd::arithmetic::power::pow;
use validator::ValidateEmail;

verus! {

/// Whether the `validator` crate accepts the text as an e-mail address.
pub uninterp spec fn email_accepted(s: Seq<char>) -> bool;

/// The identifier that `uuid` reads from the text, if it reads one.
pub uninterp spec fn uuid_read(s: Seq<char>) -> Option<u128>;

/// The lower-case hexadecimal digit of `v`, which is below 16.
pub open spec fn hex_digit(v: int) -> char {
    seq!['0', '1', '2', '3', '4', '5', '6', '7', '8', '9', 'a', 'b', 'c', 'd', 'e', 'f'][v]
}

/// Hexadecimal digit `k` of `id`, counting from the most significant of 32.
pub open spec fn nibble(id: u128, k: int) -> int {
    (id as int / pow(16, (31 - k) as nat)) % 16
}

/// Position `i` of the hyphenated text, past its hyphens, as a digit index.
pub open spec fn digit_at(i: int) -> int {
    if i < 8 {
        i
    } else if i < 13 {
        i - 1
    } else if i < 18 {
        i - 2
    } else if i < 23 {
        i - 3
    } else {
        i - 4
    }
}

/// The hyphenated lower-case text of an identifier: its 32 hexadecimal
/// digits, most significant first, in groups of 8, 4, 4, 4 and 12.
pub open spec fn uuid_text_of(id: u128) -> Seq<char> {
    Seq::new(
        36,
        |i: int|
            if i == 8 || i == 13 || i == 18 || i == 23 {
                '-'
            } else {
                hex_digit(nibble(id, digit_at(i)))
            },
    )
}

/// The text with leading and trailing white space removed, as `str::trim` does.
pub uninterp spec fn trimmed(s: Seq<char>) -> Seq<char>;

/// Relies on `<String as validator::ValidateEmail>::validate_email`: the answer
/// depends on the text alone, and the empty text is refused.
#[verifier::external_body]
pub(crate) fn email_is_valid(s: &String) -> (r: bool)
    ensures
        r == email_accepted(s@),
        s@.len() == 0 ==> !r,
{
    s.validate_email()
}

/// Relies on `uuid::Uuid::parse_str` and `Uuid::as_u128`: the result depends on
/// the text alone, and the empty text is no identifier.
#[verifier::external_body]
pub(crate) fn read_uuid(s: &str) -> (r: Option<u128>)
    ensures
        r == uuid_read(s@),
        s@.len() == 0 ==> r is None,
{
    uuid::Uuid::parse_str(s).ok().map(|u| u.as_u128())
}

/// Relies on `uuid::Uuid::from_u128`, which keeps the value's bytes most
/// significant first, and the `Display` impl of `Uuid`, which writes them as
/// hyphenated lower-case hexadecimal.
#[verifier::external_body]
pub(crate) fn uuid_text(id: u128) -> (r: String)
    ensures
        r@ == uuid_text_of(id),
{
    uuid::Uuid::from_u128(id).to_string()
}

/// Relies on `uuid::Uuid::new_v4`: a random identifier, of which nothing is known.
#[verifier::external_body]
pub(crate) fn random_id() -> (r: u128) {
    uuid::Uuid::new_v4().as_u128()
}

/// Relies on `chrono::Utc::now` and `timestamp_micros`: the current time in
/// microseconds since the Unix epoch, of which nothing is known here.
#[verifier::external_body]
pub(crate) fn now_micros() -> (r: i64) {
    chrono::Utc::now().timestamp_micros()
}

/// Relies on `str::trim`: the result depends on the text alone, and is never
/// longer than it.
#[verifier::external_body]
pub(crate) fn trim_text(s: &str) -> (r: &str)
    ensures
        r@ == trimmed(s@),
        r@.len() <= s@.len(),
{
    s.trim()
}

} // verus!
