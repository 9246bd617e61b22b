//! Character classes and the string primitives the renderer is built on.
//!
//! Unicode character properties and lower-casing come from `std`; their
//! results are named here and believed as stated.  Everything ASCII is
//! written out and proved.

use vstd::prelude::*;

verus! {

/// For a character beyond ASCII, whether it has the Unicode `Uppercase`
/// property, as `char::is_uppercase` decides it.
pub uninterp spec fn unicode_uppercase(c: char) -> bool;

/// For a character beyond ASCII, whether it has the Unicode `Alphabetic`
/// property, as `char::is_alphabetic` decides it.
pub uninterp spec fn unicode_alphabetic(c: char) -> bool;

/// For a character beyond ASCII, whether it is alphabetic or numeric, as
/// `char::is_alphanumeric` decides it.
pub uninterp spec fn unicode_alphanumeric(c: char) -> bool;

/// For a character beyond ASCII, whether it has the Unicode `White_Space`
/// property, as `char::is_whitespace` decides it.
pub uninterp spec fn unicode_whitespace(c: char) -> bool;

/// `char::is_uppercase`: within ASCII the letters `A` to `Z`.
pub open spec fn spec_uppercase(c: char) -> bool {
    if spec_ascii(c) {
        'A' <= c && c <= 'Z'
    } else {
        unicode_uppercase(c)
    }
}

/// `char::is_alphabetic`: within ASCII the letters.
pub open spec fn spec_alphabetic(c: char) -> bool {
    if spec_ascii(c) {
        ('A' <= c && c <= 'Z') || ('a' <= c && c <= 'z')
    } else {
        unicode_alphabetic(c)
    }
}

/// `char::is_alphanumeric`: within ASCII the letters and digits.
pub open spec fn spec_alphanumeric(c: char) -> bool {
    if spec_ascii(c) {
        ('A' <= c && c <= 'Z') || ('a' <= c && c <= 'z') || ('0' <= c && c <= '9')
    } else {
        unicode_alphanumeric(c)
    }
}

/// `char::is_whitespace`: within ASCII the space and tab, line feed,
/// vertical tab, form feed and carriage return (U+0009 to U+000D).
pub open spec fn spec_whitespace(c: char) -> bool {
    if spec_ascii(c) {
        c == ' ' || ('\t' <= c && c <= '\r')
    } else {
        unicode_whitespace(c)
    }
}

/// The lower-case mapping of a whole string, as `str::to_lowercase` computes it.
pub uninterp spec fn unicode_lowercase(s: Seq<char>) -> Seq<char>;

/// Calls `char::is_uppercase`. The contract claims that within ASCII exactly
/// `A` to `Z` are upper case; beyond ASCII the result is `unicode_uppercase(c)`,
/// the same for the same character, the Unicode tables not being stated here.
#[verifier::external_body]
pub(crate) fn is_uppercase(c: char) -> (r: bool)
    ensures
        spec_ascii(c) ==> (r == ('A' <= c && c <= 'Z')),
        !spec_ascii(c) ==> r == unicode_uppercase(c),
{
    c.is_uppercase()
}

/// Calls `char::is_alphabetic`. The contract claims that within ASCII exactly
/// the letters are alphabetic; beyond ASCII the result is `unicode_alphabetic(c)`,
/// not stated further.
#[verifier::external_body]
pub(crate) fn is_alphabetic(c: char) -> (r: bool)
    ensures
        spec_ascii(c) ==> (r == (('A' <= c && c <= 'Z') || ('a' <= c && c <= 'z'))),
        !spec_ascii(c) ==> r == unicode_alphabetic(c),
{
    c.is_alphabetic()
}

/// Calls `char::is_alphanumeric`. The contract claims that within ASCII exactly
/// the letters and digits qualify; beyond ASCII the result is
/// `unicode_alphanumeric(c)`, not stated further.
#[verifier::external_body]
pub(crate) fn is_alphanumeric(c: char) -> (r: bool)
    ensures
        spec_ascii(c) ==> (r == (('A' <= c && c <= 'Z') || ('a' <= c && c <= 'z') || ('0' <= c && c <= '9'))),
        !spec_ascii(c) ==> r == unicode_alphanumeric(c),
{
    c.is_alphanumeric()
}

/// Calls `char::is_whitespace`. The contract claims that within ASCII exactly
/// the space and U+0009 to U+000D are white space; beyond ASCII the result is
/// `unicode_whitespace(c)`, not stated further.
#[verifier::external_body]
pub(crate) fn is_whitespace(c: char) -> (r: bool)
    ensures
        spec_ascii(c) ==> (r == (c == ' ' || ('\t' <= c && c <= '\r'))),
        !spec_ascii(c) ==> r == unicode_whitespace(c),
{
    c.is_whitespace()
}

/// Calls `str::to_lowercase`. The contract claims only that the result's
/// characters are `unicode_lowercase(s@)`, a function of the characters of `s`;
/// the case mapping itself is not stated here.
#[verifier::external_body]
pub(crate) fn to_lowercase(s: &str) -> (r: String)
    ensures
        r@ == unicode_lowercase(s@),
{
    s.to_lowercase()
}

/// Calls `String::push`. The contract claims that the string afterwards holds
/// its old characters followed by `c`.
#[verifier::external_body]
pub(crate) fn push_char(s: &mut String, c: char)
    ensures
        final(s)@ == old(s)@.push(c),
{
    s.push(c);
}

/// `char::is_ascii_digit`: the ten characters `'0'..='9'`.
pub open spec fn spec_ascii_digit(c: char) -> bool {
    '0' <= c && c <= '9'
}

pub fn is_ascii_digit(c: char) -> (r: bool)
    ensures
        r == spec_ascii_digit(c),
{
    '0' <= c && c <= '9'
}

/// `char::is_ascii`: code points below 128.
pub open spec fn spec_ascii(c: char) -> bool {
    (c as u32) < 128
}

pub fn is_ascii(c: char) -> (r: bool)
    ensures
        r == spec_ascii(c),
{
    (c as u32) < 128
}

/// An upper-case or a non-ASCII character.
pub open spec fn spec_upperish(c: char) -> bool {
    spec_uppercase(c) || !spec_ascii(c)
}

pub fn upperish(c: char) -> (r: bool)
    ensures
        r == spec_upperish(c),
{
    is_uppercase(c) || !is_ascii(c)
}

/// The characters of a string slice, in order.
pub fn chars_of(s: &str) -> (v: Vec<char>)
    ensures
        v@ == s@,
{
    let mut v: Vec<char> = Vec::new();
    for c in it: s.chars()
        invariant
            v@ == it.seq().take(it.index() as int),
    {
        v.push(c);
    }
    v
}

/// Appends the characters `v[from..to]` to `out`.
pub fn push_range(out: &mut String, v: &Vec<char>, from: usize, to: usize)
    requires
        from <= to <= v.len(),
    ensures
        final(out)@ == old(out)@ + v@.subrange(from as int, to as int),
{
    let mut i: usize = from;
    while i < to
        invariant
            from <= i <= to <= v.len(),
            out@ == old(out)@ + v@.subrange(from as int, i as int),
        decreases to - i,
    {
        push_char(out, v[i]);
        assert(v@.subrange(from as int, i + 1) == v@.subrange(from as int, i as int).push(v@[i as int]));
        i += 1;
    }
}

/// A `String` holding the characters `v[from..to]`.
pub fn string_of(v: &Vec<char>, from: usize, to: usize) -> (s: String)
    requires
        from <= to <= v.len(),
    ensures
        s@ == v@.subrange(from as int, to as int),
{
    let mut s = String::new();
    push_range(&mut s, v, from, to);
    s
}

} // verus!
