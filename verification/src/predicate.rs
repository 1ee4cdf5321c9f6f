use vstd::prelude::*;

use unicode_properties::UnicodeEmoji;

verus! {

/// Whether `c` has the Unicode `XID_Start` property.
pub uninterp spec fn xid_start(c: char) -> bool;

/// Whether `c` has the Unicode `XID_Continue` property.
pub uninterp spec fn xid_continue(c: char) -> bool;

/// Whether `c` has the Unicode `Emoji` property.
pub uninterp spec fn emoji(c: char) -> bool;

/// Whether `c` has the Unicode `White_Space` property.
pub uninterp spec fn white_space(c: char) -> bool;

/// ASCII letters `A-Z` and `a-z`.
pub open spec fn is_ascii_letter(c: char) -> bool {
    ('a' <= c && c <= 'z') || ('A' <= c && c <= 'Z')
}

/// ASCII digits `0-9`.
pub open spec fn is_ascii_digit_spec(c: char) -> bool {
    '0' <= c && c <= '9'
}

/// Characters below U+0080.
pub open spec fn is_ascii_spec(c: char) -> bool {
    (c as u32) < 128
}

/// ASCII whitespace: U+0009 to U+000D and the space.
pub open spec fn is_ascii_white_space(c: char) -> bool {
    ('\u{9}' <= c && c <= '\u{d}') || c == ' '
}

/// Whether `c` may start an identifier: an underscore or an `XID_Start` character, which
/// among ASCII characters are the letters.
pub open spec fn ident_start(c: char) -> bool {
    c == '_' || if is_ascii_spec(c) {
        is_ascii_letter(c)
    } else {
        xid_start(c)
    }
}

/// Whether `c` may continue an identifier: an `XID_Continue` character, which among ASCII
/// characters are the letters, the digits and `_`.
pub open spec fn ident_continue(c: char) -> bool {
    if is_ascii_spec(c) {
        is_ascii_letter(c) || is_ascii_digit_spec(c) || c == '_'
    } else {
        xid_continue(c)
    }
}

/// Whether `c` is whitespace: a `White_Space` character, which among ASCII characters are
/// U+0009 to U+000D and the space.
pub open spec fn whitespace_char(c: char) -> bool {
    if is_ascii_spec(c) {
        is_ascii_white_space(c)
    } else {
        white_space(c)
    }
}

/// A non-ASCII emoji, which makes the identifier it appears in invalid.
pub open spec fn non_ascii_emoji(c: char) -> bool {
    !is_ascii_spec(c) && emoji(c)
}

/// `unicode_ident::is_xid_start`: a fixed Unicode property table lookup.
/// The contract names the result `xid_start(c)`; for ASCII input the crate's table holds exactly the letters.
#[verifier::external_body]
fn unicode_xid_start(c: char) -> (r: bool)
    ensures
        r == xid_start(c),
        is_ascii_spec(c) ==> (r <==> is_ascii_letter(c)),
{
    unicode_ident::is_xid_start(c)
}

/// `unicode_ident::is_xid_continue`: a fixed Unicode property table lookup.
/// The contract names the result `xid_continue(c)`; for ASCII input the crate's table holds
/// exactly the letters, the digits and `_`.
#[verifier::external_body]
fn unicode_xid_continue(c: char) -> (r: bool)
    ensures
        r == xid_continue(c),
        is_ascii_spec(c) ==> (r <==> (is_ascii_letter(c) || is_ascii_digit_spec(c) || c == '_')),
{
    unicode_ident::is_xid_continue(c)
}

/// `unicode_properties::UnicodeEmoji::is_emoji_char`: the Unicode `Emoji` property of `c`,
/// named `emoji(c)`; nothing more is claimed of the table.
#[verifier::external_body]
pub(crate) fn unicode_is_emoji(c: char) -> (r: bool)
    ensures
        r == emoji(c),
{
    c.is_emoji_char()
}

/// `char::is_whitespace`: the Unicode `White_Space` property of `c`, named `white_space(c)`;
/// the standard library's documentation gives it by reference to the Unicode database,
/// whose ASCII `White_Space` characters are U+0009 to U+000D and the space.
#[verifier::external_body]
pub(crate) fn char_is_whitespace(c: char) -> (r: bool)
    ensures
        r == white_space(c),
        is_ascii_spec(c) ==> (r <==> is_ascii_white_space(c)),
{
    c.is_whitespace()
}

/// `char::is_ascii_digit`: `'0'..='9'`.
pub fn is_ascii_digit(c: char) -> (r: bool)
    ensures
        r == is_ascii_digit_spec(c),
{
    '0' <= c && c <= '9'
}

/// `char::is_ascii`: below U+0080.
pub fn is_ascii(c: char) -> (r: bool)
    ensures
        r == is_ascii_spec(c),
{
    (c as u32) < 128
}

/// Whether `c` may start an identifier.
pub fn is_ident_start(c: char) -> (r: bool)
    ensures
        r == ident_start(c),
{
    c == '_' || unicode_xid_start(c)
}

/// Whether `c` may continue an identifier.
pub fn is_ident_continue(c: char) -> (r: bool)
    ensures
        r == ident_continue(c),
{
    unicode_xid_continue(c)
}

/// Whether `c` is whitespace (`char::is_whitespace`).
pub fn is_whitespace(c: char) -> (r: bool)
    ensures
        r == whitespace_char(c),
{
    char_is_whitespace(c)
}

} // verus!
