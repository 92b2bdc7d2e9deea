//! Character classes used by the scanner.
use vstd::prelude::*;

verus! {

/// A Unicode White_Space scalar: the ASCII controls tab through carriage
/// return, space, next line, no-break space, ogham space mark, the spaces
/// U+2000 to U+200A, the line and paragraph separators, narrow no-break space,
/// medium mathematical space and ideographic space.
pub open spec fn whitespace(c: char) -> bool {
    ||| c == ' '
    ||| ('\t' <= c && c <= '\r')
    ||| c == '\u{85}'
    ||| c == '\u{a0}'
    ||| c == '\u{1680}'
    ||| ('\u{2000}' <= c && c <= '\u{200a}')
    ||| c == '\u{2028}'
    ||| c == '\u{2029}'
    ||| c == '\u{202f}'
    ||| c == '\u{205f}'
    ||| c == '\u{3000}'
}

/// Whether a character has the Unicode Alphabetic property.
pub uninterp spec fn unicode_alphabetic(c: char) -> bool;

/// An ASCII letter.
pub open spec fn ascii_letter(c: char) -> bool {
    ('a' <= c && c <= 'z') || ('A' <= c && c <= 'Z')
}

/// A character that may start or continue an identifier: an underscore or an
/// alphabetic character. Among ASCII characters these are the letters, and no
/// whitespace character is alphabetic.
pub open spec fn identifier_char(c: char) -> bool {
    if c <= '\x7f' {
        ascii_letter(c) || c == '_'
    } else {
        unicode_alphabetic(c) && !whitespace(c)
    }
}

/// An ASCII decimal digit.
pub open spec fn decimal_digit(c: char) -> bool {
    '0' <= c && c <= '9'
}

/// Relies on `char::is_alphabetic`, which reports the Unicode Alphabetic
/// property: among ASCII characters it holds of the letters alone, and
/// Unicode derives it from the letter categories, the letter numbers and
/// Other_Alphabetic, to none of which a White_Space scalar belongs.
#[verifier::external_body]
fn alphabetic(c: char) -> (r: bool)
    ensures
        r == unicode_alphabetic(c),
        c <= '\x7f' ==> (r == ascii_letter(c)),
        whitespace(c) ==> !r,
{
    c.is_alphabetic()
}

/// Whether `c` is whitespace; the scanner skips runs of these between tokens.
pub fn is_whitespace(c: char) -> (r: bool)
    ensures
        r == whitespace(c),
{
    c == ' ' || ('\t' <= c && c <= '\r') || c == '\u{85}' || c == '\u{a0}' || c == '\u{1680}'
        || ('\u{2000}' <= c && c <= '\u{200a}') || c == '\u{2028}' || c == '\u{2029}'
        || c == '\u{202f}' || c == '\u{205f}' || c == '\u{3000}'
}

/// Whether `c` is alphabetic or an underscore.
pub fn is_letter(c: char) -> (r: bool)
    ensures
        r == identifier_char(c),
{
    alphabetic(c) || c == '_'
}

/// Whether `c` is an ASCII decimal digit.
pub fn is_digit(c: char) -> (r: bool)
    ensures
        r == decimal_digit(c),
{
    '0' <= c && c <= '9'
}

} // verus!
