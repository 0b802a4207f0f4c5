//! Case conversions, relied on from the `heck` crate and from std.
//!
//! Each conversion's result depends on the input characters alone, so it is
//! given a name that contracts elsewhere in the library speak of.

use vstd::prelude::*;

verus! {

/// The snake_case form of a string, as `heck` computes it.
pub uninterp spec fn snake_case_of(s: Seq<char>) -> Seq<char>;

/// The SHOUTY_SNAKE_CASE form of a string, as `heck` computes it.
pub uninterp spec fn shouty_snake_of(s: Seq<char>) -> Seq<char>;

/// The UpperCamelCase form of a string, as `heck` computes it.
pub uninterp spec fn upper_camel_of(s: Seq<char>) -> Seq<char>;

/// The lowerCamelCase form of a string, as `heck` computes it.
pub uninterp spec fn lower_camel_of(s: Seq<char>) -> Seq<char>;

/// The Unicode lowercase form of a string, as `str::to_lowercase` computes it.
pub uninterp spec fn lowercase_of(s: Seq<char>) -> Seq<char>;

/// The Unicode uppercase form of a string, as `str::to_uppercase` computes it.
pub uninterp spec fn uppercase_of(s: Seq<char>) -> Seq<char>;

/// Whether a character is numeric, as `char::is_numeric` decides it.
pub uninterp spec fn unicode_numeric(c: char) -> bool;

/// Whether a character is alphabetic, as `char::is_alphabetic` decides it.
pub uninterp spec fn unicode_alpha(c: char) -> bool;

/// Relies on heck's `ToSnakeCase::to_snake_case`: the result depends on the
/// characters alone.
#[verifier::external_body]
pub fn to_snake_case(s: &str) -> (r: String)
    ensures
        r@ == snake_case_of(s@),
{
    heck::ToSnakeCase::to_snake_case(s)
}

/// Relies on heck's `ToShoutySnakeCase::to_shouty_snake_case`: the result
/// depends on the characters alone.
#[verifier::external_body]
pub fn to_shouty_snake_case(s: &str) -> (r: String)
    ensures
        r@ == shouty_snake_of(s@),
{
    heck::ToShoutySnakeCase::to_shouty_snake_case(s)
}

/// Relies on heck's `ToUpperCamelCase::to_upper_camel_case`: the result
/// depends on the characters alone.
#[verifier::external_body]
pub fn to_upper_camel_case(s: &str) -> (r: String)
    ensures
        r@ == upper_camel_of(s@),
{
    heck::ToUpperCamelCase::to_upper_camel_case(s)
}

/// Relies on heck's `ToLowerCamelCase::to_lower_camel_case`: the result
/// depends on the characters alone.
#[verifier::external_body]
pub fn to_lower_camel_case(s: &str) -> (r: String)
    ensures
        r@ == lower_camel_of(s@),
{
    heck::ToLowerCamelCase::to_lower_camel_case(s)
}

/// Relies on std's `str::to_lowercase`: Unicode case folding, a function of
/// the characters alone.
#[verifier::external_body]
pub fn to_lowercase(s: &str) -> (r: String)
    ensures
        r@ == lowercase_of(s@),
{
    s.to_lowercase()
}

/// Relies on std's `str::to_uppercase`: Unicode case folding, a function of
/// the characters alone.
#[verifier::external_body]
pub fn to_uppercase(s: &str) -> (r: String)
    ensures
        r@ == uppercase_of(s@),
{
    s.to_uppercase()
}

/// Relies on std's `char::is_numeric`: membership in the Unicode numeric
/// categories, a function of the character alone.
#[verifier::external_body]
pub fn char_is_numeric(c: char) -> (r: bool)
    ensures
        r == unicode_numeric(c),
{
    c.is_numeric()
}

/// Relies on std's `char::is_alphabetic`: membership in the Unicode
/// alphabetic categories, a function of the character alone.
#[verifier::external_body]
pub fn char_is_alphabetic(c: char) -> (r: bool)
    ensures
        r == unicode_alpha(c),
{
    c.is_alphabetic()
}

} // verus!
