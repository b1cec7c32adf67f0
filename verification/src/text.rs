//! Lines of text, as `str::lines` and `str::split_inclusive` cut them, and
//! the conversion between `str` and its characters.

use vstd::prelude::*;
use vstd::slice::slice_subrange;

use crate::chars::{CharClass, lemma_span, run_len, span};
use vstd::utf8::{char_is_scalar, encode_scalar, encode_utf8};

verus! {

/// `line` without the `\r` of a `\r\n` line ending, given the part before the
/// `\n`.
pub open spec fn without_cr(line: Seq<char>) -> Seq<char> {
    if line.len() > 0 && line.last() == '\r' {
        line.drop_last()
    } else {
        line
    }
}

/// The lines of `s` as `str::lines` gives them: cut at each `\n`, with the
/// `\r` of a `\r\n` taken off too, and no empty line after a final line
/// ending.
pub open spec fn lines(s: Seq<char>) -> Seq<Seq<char>>
    decreases s.len(),
{
    if s.len() == 0 {
        seq![]
    } else {
        let n = span(s, CharClass::Not('\n'));
        if n < s.len() {
            seq![without_cr(s.take(n as int))] + lines(s.skip(n + 1 as int))
        } else {
            seq![s]
        }
    }
}

/// The pieces of `s` as `str::split_inclusive('\n')` gives them: each line
/// with the `\n` that ends it, and a last piece without one where `s` does not
/// end on a line ending.
pub open spec fn inclusive_lines(s: Seq<char>) -> Seq<Seq<char>>
    decreases s.len(),
{
    if s.len() == 0 {
        seq![]
    } else {
        let n = span(s, CharClass::Not('\n'));
        if n < s.len() {
            seq![s.take(n + 1 as int)] + inclusive_lines(s.skip(n + 1 as int))
        } else {
            seq![s]
        }
    }
}

/// The characters of an optional slice.
pub open spec fn opt_view(o: Option<&[char]>) -> Option<Seq<char>> {
    match o {
        Some(x) => Some(x@),
        None => None,
    }
}

/// An optional length as a `usize`.
pub open spec fn opt_usize(o: Option<nat>) -> Option<usize> {
    match o {
        Some(n) => Some(n as usize),
        None => None,
    }
}

/// The pieces `ls` written one after another.
pub open spec fn joined(ls: Seq<Seq<char>>) -> Seq<char>
    decreases ls.len(),
{
    if ls.len() == 0 {
        seq![]
    } else {
        ls[0] + joined(ls.drop_first())
    }
}

/// Cutting `s` after each `\n` loses nothing: the pieces make up `s`.
pub proof fn lemma_inclusive_lines_joined(s: Seq<char>)
    ensures
        joined(inclusive_lines(s)) == s,
    decreases s.len(),
{
    if s.len() > 0 {
        let n = span(s, CharClass::Not('\n'));
        lemma_span(s, CharClass::Not('\n'));
        if n < s.len() {
            lemma_inclusive_lines_joined(s.skip(n + 1 as int));
            let ls = inclusive_lines(s);
            assert(ls.drop_first() =~= inclusive_lines(s.skip(n + 1 as int)));
            assert(s =~= s.take(n + 1 as int) + s.skip(n + 1 as int));
        } else {
            let ls = inclusive_lines(s);
            assert(ls.drop_first() =~= Seq::<Seq<char>>::empty());
            assert(joined(ls.drop_first()) =~= Seq::<char>::empty());
            assert(s + Seq::<char>::empty() =~= s);
        }
    }
}

/// The first line of `s`, if it has any.
pub open spec fn first_line(s: Seq<char>) -> Option<Seq<char>> {
    if s.len() == 0 {
        None
    } else {
        Some(lines(s)[0])
    }
}

/// The characters of `s`.
pub fn chars_of(s: &str) -> (v: Vec<char>)
    ensures
        v@ == s@,
{
    let mut v: Vec<char> = Vec::new();
    for c in it: s.chars()
        invariant
            v@ == it.seq().take(it.index() as int),
            it.seq() == s@,
    {
        v.push(c);
    }
    v
}

/// The first line of the non-empty `content`.
pub fn first_line_of(content: &[char]) -> (line: &[char])
    requires
        content@.len() > 0,
    ensures
        first_line(content@) == Some(line@),
{
    let n = run_len(content, CharClass::Not('\n'));
    proof {
        lemma_span(content@, CharClass::Not('\n'));
    }
    let line = slice_subrange(content, 0, n);
    assert(line@ =~= content@.take(n as int));
    if n < content.len() && n > 0 && line[n - 1] == '\r' {
        let l = slice_subrange(line, 0, n - 1);
        assert(l@ =~= line@.drop_last());
        l
    } else {
        if n == content.len() {
            assert(line@ =~= content@);
        }
        line
    }
}

/// `out` with the characters of `s` added at its end.
pub fn append_chars(out: &mut Vec<char>, s: &[char])
    ensures
        final(out)@ == old(out)@ + s@,
{
    let ghost start = out@;
    let mut i: usize = 0;
    while i < s.len()
        invariant
            i <= s.len(),
            out@ == start + s@.take(i as int),
        decreases s.len() - i,
    {
        out.push(s[i]);
        i += 1;
        assert(s@.take(i as int) =~= s@.take(i - 1 as int).push(s@[i - 1]));
    }
    assert(s@.take(s.len() as int) =~= s@);
}

/// Whether `s` holds `c`.
pub fn contains_char(s: &[char], c: char) -> (r: bool)
    ensures
        r == s@.contains(c),
{
    let mut i: usize = 0;
    while i < s.len()
        invariant
            i <= s@.len(),
            forall|j: int| 0 <= j < i ==> s@[j] != c,
        decreases s@.len() - i,
    {
        if s[i] == c {
            assert(s@[i as int] == c);
            return true;
        }
        i += 1;
    }
    false
}

/// The string of the characters of `chars`.
///
/// Calls `FromIterator<&char>` for `String`, which collects the characters
/// in their order; that is all the contract claims of it.
#[verifier::external_body]
pub fn string_of(chars: &[char]) -> (s: String)
    ensures
        s@ == chars@,
{
    chars.iter().collect()
}

/// The length in bytes of the UTF-8 encoding of `s`.
pub open spec fn utf8_len(s: Seq<char>) -> nat {
    encode_utf8(s).len()
}

/// Encoding a text encodes its parts one after the other.
pub proof fn lemma_encode_utf8_concat(a: Seq<char>, b: Seq<char>)
    ensures
        encode_utf8(a + b) == encode_utf8(a) + encode_utf8(b),
    decreases a.len(),
{
    if a.len() == 0 {
        assert(a + b =~= b);
        assert(encode_utf8(a) =~= Seq::<u8>::empty());
        assert(encode_utf8(a) + encode_utf8(b) =~= encode_utf8(b));
    } else {
        assert((a + b).drop_first() =~= a.drop_first() + b);
        lemma_encode_utf8_concat(a.drop_first(), b);
        assert(encode_utf8(a + b) =~= encode_scalar(a[0] as u32) + encode_utf8(a.drop_first() + b));
    }
}

/// The number of bytes UTF-8 spends on `c`.
pub fn utf8_width(c: char) -> (n: usize)
    ensures
        n == encode_scalar(c as u32).len(),
        1 <= n <= 4,
{
    proof {
        char_is_scalar(c);
    }
    let v = c as u32;
    if v <= 0x7F {
        1
    } else if v <= 0x7FF {
        2
    } else if v <= 0xFFFF {
        3
    } else {
        4
    }
}

/// The number of bytes of the first `k` characters of `s`, given that the
/// encoding of the whole of `s` fits in memory.
pub fn utf8_prefix_len(s: &[char], k: usize) -> (n: usize)
    requires
        k <= s@.len(),
        utf8_len(s@) <= usize::MAX,
    ensures
        n == utf8_len(s@.take(k as int)),
{
    let mut n: usize = 0;
    let mut i: usize = 0;
    while i < k
        invariant
            i <= k <= s@.len(),
            utf8_len(s@) <= usize::MAX,
            n == utf8_len(s@.take(i as int)),
        decreases k - i,
    {
        let w = utf8_width(s[i]);
        proof {
            let pre = s@.take(i as int);
            assert(s@.take(i + 1 as int) =~= pre + seq![s@[i as int]]);
            lemma_encode_utf8_concat(pre, seq![s@[i as int]]);
            let one = seq![s@[i as int]];
            assert(one.drop_first() =~= Seq::<char>::empty());
            assert(encode_utf8(one.drop_first()) =~= Seq::<u8>::empty());
            assert(encode_utf8(one) == encode_scalar(one[0] as u32) + encode_utf8(one.drop_first()));
            assert(encode_utf8(one) =~= encode_scalar(s@[i as int] as u32));
            assert(s@ =~= s@.take(i + 1 as int) + s@.skip(i + 1 as int));
            lemma_encode_utf8_concat(s@.take(i + 1 as int), s@.skip(i + 1 as int));
        }
        n = n + w;
        i += 1;
    }
    n
}

/// The number of bytes of the first `k` characters of `text`.
pub fn str_prefix_len(text: &str, chars: &[char], k: usize) -> (n: usize)
    requires
        chars@ == text@,
        k <= chars@.len(),
    ensures
        n == utf8_len(text@.take(k as int)),
{
    let bytes = text.as_bytes();
    let total = bytes.len();
    assert(utf8_len(chars@) == total);
    utf8_prefix_len(chars, k)
}

/// The line that starts at `pos` in `s`, and where the line after it starts.
pub fn line_at(s: &[char], pos: usize) -> (r: (&[char], usize))
    requires
        pos < s@.len(),
    ensures
        pos < r.1 <= s@.len(),
        lines(s@.skip(pos as int)) == seq![r.0@] + lines(s@.skip(r.1 as int)),
{
    let rest = slice_subrange(s, pos, s.len());
    let n = run_len(rest, CharClass::Not('\n'));
    proof {
        lemma_span(rest@, CharClass::Not('\n'));
    }
    assert(rest@ =~= s@.skip(pos as int));
    let line = slice_subrange(rest, 0, n);
    assert(line@ =~= rest@.take(n as int));
    if n < rest.len() {
        assert(rest@.skip(n + 1 as int) =~= s@.skip(pos + n + 1));
        if n > 0 && line[n - 1] == '\r' {
            let l = slice_subrange(line, 0, n - 1);
            assert(l@ =~= line@.drop_last());
            (l, pos + n + 1)
        } else {
            (line, pos + n + 1)
        }
    } else {
        assert(line@ =~= rest@);
        assert(s@.skip(s@.len() as int) =~= Seq::<char>::empty());
        assert(lines(Seq::<char>::empty()) =~= Seq::<Seq<char>>::empty());
        assert(seq![line@] + lines(s@.skip(s@.len() as int)) =~= seq![line@]);
        (line, s.len())
    }
}

/// Where the piece of `s` that [`inclusive_lines`] cuts at `pos` ends.
pub fn inclusive_line_end(s: &[char], pos: usize) -> (end: usize)
    requires
        pos < s@.len(),
    ensures
        pos < end <= s@.len(),
        inclusive_lines(s@.skip(pos as int)) == seq![s@.subrange(pos as int, end as int)]
            + inclusive_lines(s@.skip(end as int)),
        end < s@.len() ==> s@[end - 1] == '\n',
        forall|i: int| pos <= i < end - 1 ==> s@[i] != '\n',
{
    let rest = slice_subrange(s, pos, s.len());
    let n = run_len(rest, CharClass::Not('\n'));
    proof {
        lemma_span(rest@, CharClass::Not('\n'));
        assert forall|i: int| pos <= i < pos + n implies s@[i] != '\n' by {
            assert(s@[i] == rest@[i - pos]);
        }
    }
    assert(rest@ =~= s@.skip(pos as int));
    if n < rest.len() {
        assert(rest@.skip(n + 1 as int) =~= s@.skip(pos + n + 1));
        assert(rest@.take(n + 1 as int) =~= s@.subrange(pos as int, pos + n + 1));
        assert(s@[pos + n] == rest@[n as int]);
        pos + n + 1
    } else {
        assert(rest@ =~= s@.subrange(pos as int, s@.len() as int));
        assert(s@.skip(s@.len() as int) =~= Seq::<char>::empty());
        assert(inclusive_lines(Seq::<char>::empty()) =~= Seq::<Seq<char>>::empty());
        assert(seq![rest@] + inclusive_lines(s@.skip(s@.len() as int)) =~= seq![rest@]);
        s.len()
    }
}

} // verus!
