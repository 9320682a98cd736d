//! Numbers as text. The formatting is std's; this module gives each format
//! a name, so that the texts built from them can be stated.

use vstd::prelude::*;

verus! {

/// A number in hexadecimal with the prefix `0x`, as `{:#x}` prints it.
pub uninterp spec fn hex_spec(value: u64) -> Seq<char>;

/// A number in hexadecimal with the prefix `0x`, padded with zeros to ten
/// characters, as `{:#010x}` prints it.
pub uninterp spec fn hex10_spec(value: u64) -> Seq<char>;

/// A number in hexadecimal with the prefix `0x`, padded with zeros to 18
/// characters, as `{:#018x}` prints it.
pub uninterp spec fn hex18_spec(value: u64) -> Seq<char>;

/// A number in decimal, padded with spaces on the right to two characters,
/// as `{: <2}` prints it.
pub uninterp spec fn left2_spec(value: u64) -> Seq<char>;

/// A number in decimal, padded with spaces on the left to three
/// characters, as `{: >3}` prints it.
pub uninterp spec fn right3_spec(value: u64) -> Seq<char>;

/// `format!` of std with `{:#x}`.
#[verifier::external_body]
pub(crate) fn hex(value: u64) -> (r: String)
    ensures
        r@ == hex_spec(value),
{
    format!("{:#x}", value)
}

/// `format!` of std with `{:#010x}`.
#[verifier::external_body]
pub(crate) fn hex10(value: u64) -> (r: String)
    ensures
        r@ == hex10_spec(value),
{
    format!("{:#010x}", value)
}

/// `format!` of std with `{:#018x}`.
#[verifier::external_body]
pub(crate) fn hex18(value: u64) -> (r: String)
    ensures
        r@ == hex18_spec(value),
{
    format!("{:#018x}", value)
}

/// `format!` of std with `{: <2}`.
#[verifier::external_body]
pub(crate) fn left2(value: u64) -> (r: String)
    ensures
        r@ == left2_spec(value),
{
    format!("{: <2}", value)
}

/// `format!` of std with `{: >3}`.
#[verifier::external_body]
pub(crate) fn right3(value: u64) -> (r: String)
    ensures
        r@ == right3_spec(value),
{
    format!("{: >3}", value)
}

} // verus!
