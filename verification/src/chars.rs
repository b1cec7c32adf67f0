//! Character classes, and the length of the run of one class that opens a
//! text, which is how most of this crate reads Markdown and HTML.

use vstd::prelude::*;

verus! {

/// An ASCII letter.
pub open spec fn is_ascii_alpha(c: char) -> bool {
    ('a' <= c && c <= 'z') || ('A' <= c && c <= 'Z')
}

/// An ASCII digit.
pub open spec fn is_ascii_digit(c: char) -> bool {
    '0' <= c && c <= '9'
}

/// An ASCII letter or digit.
pub open spec fn is_ascii_alnum(c: char) -> bool {
    is_ascii_alpha(c) || is_ascii_digit(c)
}

/// `c` with an ASCII capital turned into its small letter.
pub open spec fn ascii_lower(c: char) -> char {
    if 'A' <= c && c <= 'Z' {
        ((c as u32) + 32) as char
    } else {
        c
    }
}

/// `s` with every ASCII capital turned into its small letter.
pub open spec fn ascii_lowercase(s: Seq<char>) -> Seq<char> {
    s.map_values(|c: char| ascii_lower(c))
}

/// A space or a tab.
pub open spec fn is_tab_space(c: char) -> bool {
    c == ' ' || c == '\t'
}

/// A character with the Unicode `White_Space` property, which is what
/// `char::is_whitespace` and the `trim` family of `str` go by.
pub open spec fn is_unicode_whitespace(c: char) -> bool {
    ||| ('\u{9}' <= c && c <= '\u{D}')
    ||| c == ' '
    ||| c == '\u{85}'
    ||| c == '\u{A0}'
    ||| c == '\u{1680}'
    ||| ('\u{2000}' <= c && c <= '\u{200A}')
    ||| c == '\u{2028}'
    ||| c == '\u{2029}'
    ||| c == '\u{202F}'
    ||| c == '\u{205F}'
    ||| c == '\u{3000}'
}

/// The classes of character whose runs the readers below measure.
pub enum CharClass {
    /// `' '`.
    Space,
    /// `' '` or `'\t'`.
    TabSpace,
    /// Unicode whitespace.
    Whitespace,
    /// What a tag name continues with: an ASCII letter, digit or `-`.
    TagNameChar,
    /// What an attribute name continues with: an ASCII letter or digit, or one
    /// of `_ . : -`.
    AttributeNameChar,
    /// What an unquoted attribute value is made of: anything but whitespace of
    /// a tag and `" ' = < > \``.
    UnquotedValueChar,
    /// An ASCII digit.
    Digit,
    /// An ASCII letter or digit.
    AsciiAlnum,
    /// The one character given.
    Is(char),
    /// Anything but the one character given.
    Not(char),
}

/// Whether `c` is of class `class`.
pub open spec fn in_class(c: char, class: CharClass) -> bool {
    match class {
        CharClass::Space => c == ' ',
        CharClass::TabSpace => is_tab_space(c),
        CharClass::Whitespace => is_unicode_whitespace(c),
        CharClass::TagNameChar => is_ascii_alnum(c) || c == '-',
        CharClass::AttributeNameChar => is_ascii_alnum(c) || c == '_' || c == '.' || c == ':'
            || c == '-',
        CharClass::UnquotedValueChar => !(c == ' ' || c == '\t' || c == '"' || c == '\''
            || c == '=' || c == '<' || c == '>' || c == '`'),
        CharClass::Digit => is_ascii_digit(c),
        CharClass::AsciiAlnum => is_ascii_alnum(c),
        CharClass::Is(x) => c == x,
        CharClass::Not(x) => c != x,
    }
}

/// The length of the run of `class` that `s` opens with.
pub open spec fn span(s: Seq<char>, class: CharClass) -> nat
    decreases s.len(),
{
    if s.len() == 0 || !in_class(s[0], class) {
        0
    } else {
        1 + span(s.drop_first(), class)
    }
}

/// The length of the run of `class` that `s` ends with.
pub open spec fn back_span(s: Seq<char>, class: CharClass) -> nat
    decreases s.len(),
{
    if s.len() == 0 || !in_class(s.last(), class) {
        0
    } else {
        1 + back_span(s.drop_last(), class)
    }
}

/// A run is a prefix of `class` characters that the next character, if any,
/// does not continue.
pub proof fn lemma_span(s: Seq<char>, class: CharClass)
    ensures
        span(s, class) <= s.len(),
        forall|i: int| 0 <= i < span(s, class) ==> in_class(#[trigger] s[i], class),
        span(s, class) < s.len() ==> !in_class(s[span(s, class) as int], class),
    decreases s.len(),
{
    if s.len() > 0 && in_class(s[0], class) {
        lemma_span(s.drop_first(), class);
        assert forall|i: int| 0 <= i < span(s, class) implies in_class(#[trigger] s[i], class) by {
            if i > 0 {
                assert(s[i] == s.drop_first()[i - 1]);
            }
        }
    }
}

/// Only one length describes the run.
pub proof fn lemma_span_unique(s: Seq<char>, class: CharClass, k: int)
    requires
        0 <= k <= s.len(),
        forall|i: int| 0 <= i < k ==> in_class(#[trigger] s[i], class),
        k < s.len() ==> !in_class(s[k], class),
    ensures
        span(s, class) == k,
    decreases s.len(),
{
    if k > 0 {
        assert(in_class(s[0], class));
        assert forall|i: int| 0 <= i < k - 1 implies in_class(#[trigger] s.drop_first()[i], class) by {
            assert(s.drop_first()[i] == s[i + 1]);
        }
        lemma_span_unique(s.drop_first(), class, k - 1);
    }
}

/// The run at the end of a text, mirror of [`lemma_span`].
pub proof fn lemma_back_span(s: Seq<char>, class: CharClass)
    ensures
        back_span(s, class) <= s.len(),
        forall|i: int|
            s.len() - back_span(s, class) <= i < s.len() ==> in_class(#[trigger] s[i], class),
        back_span(s, class) < s.len() ==> !in_class(
            s[s.len() - back_span(s, class) - 1],
            class,
        ),
    decreases s.len(),
{
    if s.len() > 0 && in_class(s.last(), class) {
        lemma_back_span(s.drop_last(), class);
        assert forall|i: int|
            s.len() - back_span(s, class) <= i < s.len() implies in_class(
            #[trigger] s[i],
            class,
        ) by {
            if i < s.len() - 1 {
                assert(s[i] == s.drop_last()[i]);
            }
        }
        if back_span(s, class) < s.len() {
            assert(s[s.len() - back_span(s, class) - 1] == s.drop_last()[s.drop_last().len()
                - back_span(s.drop_last(), class) - 1]);
        }
    }
}

/// Only one length describes the run at the end.
pub proof fn lemma_back_span_unique(s: Seq<char>, class: CharClass, k: int)
    requires
        0 <= k <= s.len(),
        forall|i: int| s.len() - k <= i < s.len() ==> in_class(#[trigger] s[i], class),
        k < s.len() ==> !in_class(s[s.len() - k - 1], class),
    ensures
        back_span(s, class) == k,
    decreases s.len(),
{
    if k > 0 {
        assert(in_class(s.last(), class));
        assert forall|i: int|
            s.drop_last().len() - (k - 1) <= i < s.drop_last().len() implies in_class(
            #[trigger] s.drop_last()[i],
            class,
        ) by {
            assert(s.drop_last()[i] == s[i]);
        }
        if k - 1 < s.drop_last().len() {
            assert(s.drop_last()[s.drop_last().len() - (k - 1) - 1] == s[s.len() - k - 1]);
        }
        lemma_back_span_unique(s.drop_last(), class, k - 1);
    }
}

/// Whether `c` has the Unicode `Alphabetic` or `Numeric` property, what
/// `char::is_alphanumeric` answers.
pub uninterp spec fn alphanumeric(c: char) -> bool;

/// Whether `c` is alphanumeric.
///
/// Calls `char::is_alphanumeric`, whose answer depends on `c` alone and rests
/// on the Unicode character tables; the contract names that answer
/// [`alphanumeric`] and says nothing more of it.
#[verifier::external_body]
pub fn is_alphanumeric(c: char) -> (r: bool)
    ensures
        r == alphanumeric(c),
{
    c.is_alphanumeric()
}

/// Whether `c` is an ASCII letter.
pub fn is_ascii_alphabetic(c: char) -> (r: bool)
    ensures
        r == is_ascii_alpha(c),
{
    ('a' <= c && c <= 'z') || ('A' <= c && c <= 'Z')
}

/// Whether `c` is an ASCII digit.
pub fn is_ascii_digit_char(c: char) -> (r: bool)
    ensures
        r == is_ascii_digit(c),
{
    '0' <= c && c <= '9'
}

/// Whether `c` has the Unicode `White_Space` property.
pub fn is_whitespace(c: char) -> (r: bool)
    ensures
        r == is_unicode_whitespace(c),
{
    ('\u{9}' <= c && c <= '\u{D}') || c == ' ' || c == '\u{85}' || c == '\u{A0}' || c
        == '\u{1680}' || ('\u{2000}' <= c && c <= '\u{200A}') || c == '\u{2028}' || c
        == '\u{2029}' || c == '\u{202F}' || c == '\u{205F}' || c == '\u{3000}'
}

/// `c` with an ASCII capital turned into its small letter.
pub fn to_ascii_lower(c: char) -> (r: char)
    ensures
        r == ascii_lower(c),
{
    if 'A' <= c && c <= 'Z' {
        let b: u8 = (c as u8) + 32;
        b as char
    } else {
        c
    }
}

/// Whether `c` is of class `class`.
pub fn char_in_class(c: char, class: &CharClass) -> (r: bool)
    ensures
        r == in_class(c, *class),
{
    match class {
        CharClass::Space => c == ' ',
        CharClass::TabSpace => c == ' ' || c == '\t',
        CharClass::Whitespace => is_whitespace(c),
        CharClass::TagNameChar => is_ascii_alphabetic(c) || is_ascii_digit_char(c) || c == '-',
        CharClass::AttributeNameChar => is_ascii_alphabetic(c) || is_ascii_digit_char(c) || c
            == '_' || c == '.' || c == ':' || c == '-',
        CharClass::UnquotedValueChar => !(c == ' ' || c == '\t' || c == '"' || c == '\'' || c
            == '=' || c == '<' || c == '>' || c == '`'),
        CharClass::Digit => is_ascii_digit_char(c),
        CharClass::AsciiAlnum => is_ascii_alphabetic(c) || is_ascii_digit_char(c),
        CharClass::Is(x) => c == *x,
        CharClass::Not(x) => c != *x,
    }
}

/// The length of the run of `class` that `s` opens with.
pub fn run_len(s: &[char], class: CharClass) -> (n: usize)
    ensures
        n == span(s@, class),
{
    let mut i: usize = 0;
    while i < s.len() && char_in_class(s[i], &class)
        invariant
            i <= s.len(),
            forall|j: int| 0 <= j < i ==> in_class(#[trigger] s@[j], class),
        decreases s.len() - i,
    {
        i += 1;
    }
    proof {
        lemma_span_unique(s@, class, i as int);
    }
    i
}

/// The length of the run of `class` that `s` ends with.
pub fn back_run_len(s: &[char], class: CharClass) -> (n: usize)
    ensures
        n == back_span(s@, class),
{
    let mut k: usize = 0;
    while k < s.len() && char_in_class(s[s.len() - 1 - k], &class)
        invariant
            k <= s.len(),
            forall|j: int| s.len() - k <= j < s.len() ==> in_class(#[trigger] s@[j], class),
        decreases s.len() - k,
    {
        k += 1;
    }
    proof {
        lemma_back_span_unique(s@, class, k as int);
    }
    k
}

} // verus!
