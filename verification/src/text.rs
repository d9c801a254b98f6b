//! Text helpers: how an address is normalised, and how a query is looked for.
use vstd::prelude::*;
use vstd::utf8::is_ascii_chars;

verus! {

/// The characters of Unicode's `White_Space` property.
pub open spec fn is_white_space(c: char) -> bool {
    ||| '\u{9}' <= c <= '\u{d}'
    ||| c == ' '
    ||| c == '\u{85}'
    ||| c == '\u{a0}'
    ||| c == '\u{1680}'
    ||| '\u{2000}' <= c <= '\u{200a}'
    ||| c == '\u{2028}'
    ||| c == '\u{2029}'
    ||| c == '\u{202f}'
    ||| c == '\u{205f}'
    ||| c == '\u{3000}'
}

/// `s` without the white space it starts with.
pub open spec fn trim_front(s: Seq<char>) -> Seq<char>
    decreases s.len(),
{
    if s.len() > 0 && is_white_space(s.first()) {
        trim_front(s.drop_first())
    } else {
        s
    }
}

/// `s` without the white space it ends with.
pub open spec fn trim_back(s: Seq<char>) -> Seq<char>
    decreases s.len(),
{
    if s.len() > 0 && is_white_space(s.last()) {
        trim_back(s.drop_last())
    } else {
        s
    }
}

/// `s` without the white space around it.
pub open spec fn trimmed(s: Seq<char>) -> Seq<char> {
    trim_back(trim_front(s))
}

/// The ASCII lower case of one character; any other character is itself.
pub open spec fn ascii_lower_char(c: char) -> char {
    if 'A' <= c <= 'Z' {
        ((c as u32) + 32) as char
    } else {
        c
    }
}

/// `s` with its ASCII letters in lower case.
pub open spec fn ascii_lower(s: Seq<char>) -> Seq<char> {
    s.map_values(|c: char| ascii_lower_char(c))
}

/// What `str::to_lowercase` makes of a text that is not all ASCII.
pub uninterp spec fn unicode_lowercase(s: Seq<char>) -> Seq<char>;

/// A text in lower case.
pub open spec fn lowercase(s: Seq<char>) -> Seq<char> {
    if is_ascii_chars(s) {
        ascii_lower(s)
    } else {
        unicode_lowercase(s)
    }
}

/// The form in which addresses are compared: trimmed, in lower case.
pub open spec fn normalized(s: Seq<char>) -> Seq<char> {
    lowercase(trimmed(s))
}

/// `needle` occurs somewhere in `s`.
pub open spec fn occurs_in(needle: Seq<char>, s: Seq<char>) -> bool {
    exists|i: int|
        0 <= i && i + needle.len() <= s.len() && #[trigger] s.subrange(i, i + needle.len())
            == needle
}

/// `str::trim`: the text without the characters of Unicode's `White_Space` property at its two
/// ends.
pub assume_specification[ str::trim ](s: &str) -> (r: &str)
    ensures
        r@ == trimmed(s@),
;

/// `str::to_lowercase`. Of a text that is all ASCII it replaces each of the letters `A` to `Z` by
/// its lower case; of any other text the result is a function of the text and carries a name.
pub assume_specification[ str::to_lowercase ](s: &str) -> (r: String)
    ensures
        r@ == if is_ascii_chars(s@) {
            ascii_lower(s@)
        } else {
            unicode_lowercase(s@)
        },
;

/// `str::eq_ignore_ascii_case`: whether two texts are the same once their ASCII letters are in
/// lower case.
pub assume_specification[ str::eq_ignore_ascii_case ](a: &str, b: &str) -> (r: bool)
    ensures
        r == (ascii_lower(a@) == ascii_lower(b@)),
;

/// `str::contains` with a text to look for: whether it occurs in the other one.
#[verifier::external_body]
pub(crate) fn contains(s: &str, needle: &str) -> (r: bool)
    ensures
        r == occurs_in(needle@, s@),
{
    s.contains(needle)
}

/// Trims an address and lowers its case.
pub fn norm(addr: &str) -> (r: String)
    ensures
        r@ == normalized(addr@),
{
    addr.trim().to_lowercase()
}

} // verus!
