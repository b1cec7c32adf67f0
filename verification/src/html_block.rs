//! Whether a run of translated CommonMark, written at the start of a line,
//! would open an [HTML block](https://spec.commonmark.org/0.31.2/#html-blocks).
//!
//! Content which meets a start condition dissolves the paragraph holding it, so
//! that `<p>` must be written as HTML instead; a setext heading is exposed the
//! same way and falls back to ATX.
//!
//! The readers here work on the characters of the text. Where the parser they
//! follow hands back "what follows" a construct, so do they: a suffix of the
//! characters they were given.

use vstd::prelude::*;
use vstd::slice::slice_subrange;

use crate::block_elements::{is_block_element, is_raw_text_name, is_type_1_element, is_block_name, is_type_6_name};
use crate::chars::{CharClass, ascii_lower, ascii_lowercase, in_class, is_ascii_alpha, is_ascii_alphabetic, is_tab_space, lemma_span, lemma_span_unique, run_len, span, to_ascii_lower};
use crate::text::{chars_of, first_line, lines, opt_usize, opt_view, without_cr};

verus! {

/// `s` without the spaces and tabs it opens with.
pub open spec fn tab_space_trimmed(s: Seq<char>) -> Seq<char> {
    s.skip(span(s, CharClass::TabSpace) as int)
}

/// Whether `s` opens with `prefix`.
pub open spec fn starts_with(s: Seq<char>, prefix: Seq<char>) -> bool {
    prefix.len() <= s.len() && s.take(prefix.len() as int) == prefix
}

/// The length of the [tag name](https://spec.commonmark.org/0.31.2/#tag-name)
/// that `s` opens with: an ASCII letter, then letters, digits and `-`.
pub open spec fn tag_name_length(s: Seq<char>) -> Option<nat> {
    if s.len() > 0 && is_ascii_alpha(s[0]) {
        Some(span(s, CharClass::TagNameChar))
    } else {
        None
    }
}

/// The length of the
/// [attribute name](https://spec.commonmark.org/0.31.2/#attribute-name) that
/// `s` opens with: an ASCII letter, `_` or `:`, then letters, digits and
/// `_ . : -`.
pub open spec fn attribute_name_length(s: Seq<char>) -> Option<nat> {
    if s.len() > 0 && (is_ascii_alpha(s[0]) || s[0] == '_' || s[0] == ':') {
        Some(span(s, CharClass::AttributeNameChar))
    } else {
        None
    }
}

/// What follows the
/// [attribute value](https://spec.commonmark.org/0.31.2/#attribute-value) that
/// `s` opens with: a value in single or double quotes, up to the matching
/// quote, or a non-empty unquoted one.
pub open spec fn after_attribute_value(s: Seq<char>) -> Option<Seq<char>> {
    if s.len() > 0 && (s[0] == '\'' || s[0] == '"') {
        let inside = s.drop_first();
        let k = span(inside, CharClass::Not(s[0]));
        if k < inside.len() {
            Some(inside.skip(k + 1 as int))
        } else {
            None
        }
    } else {
        let n = span(s, CharClass::UnquotedValueChar);
        if n > 0 {
            Some(s.skip(n as int))
        } else {
            None
        }
    }
}

/// What follows the one [attribute](https://spec.commonmark.org/0.31.2/#attribute)
/// that `s` opens with: whitespace, a name, and an optional value
/// specification.
pub open spec fn after_attribute(s: Seq<char>) -> Option<Seq<char>> {
    if s.len() == 0 || !is_tab_space(s[0]) {
        None
    } else {
        let rest = tab_space_trimmed(s.drop_first());
        match attribute_name_length(rest) {
            None => None,
            Some(n) => {
                let rest = rest.skip(n as int);
                let before_equals = tab_space_trimmed(rest);
                if before_equals.len() > 0 && before_equals[0] == '=' {
                    after_attribute_value(tab_space_trimmed(before_equals.drop_first()))
                } else {
                    Some(rest)
                }
            }
        }
    }
}

/// `s` is `whole` with something taken off its front.
pub open spec fn is_proper_suffix(s: Seq<char>, whole: Seq<char>) -> bool {
    s.len() < whole.len() && s == whole.skip(whole.len() - s.len())
}

/// `s` is `whole`, or `whole` with something taken off its front.
pub open spec fn is_suffix(s: Seq<char>, whole: Seq<char>) -> bool {
    s.len() <= whole.len() && s == whole.skip(whole.len() - s.len())
}

/// What follows every attribute that `s` opens with, read one after another.
pub open spec fn after_attributes(s: Seq<char>) -> Seq<char>
    decreases s.len(),
{
    match after_attribute(s) {
        Some(rest) => {
            proof {
                lemma_after_attribute_suffix(s);
            }
            after_attributes(rest)
        },
        None => s,
    }
}

/// What follows the complete
/// [open](https://spec.commonmark.org/0.31.2/#open-tag) or
/// [closing tag](https://spec.commonmark.org/0.31.2/#closing-tag) whose name
/// ends where `after_name` begins: the attributes of an open tag, whitespace,
/// the `/` of a self-closing open tag, and the `>`.
pub open spec fn after_complete_tag(after_name: Seq<char>, is_closing: bool) -> Option<Seq<char>> {
    let rest = if is_closing {
        after_name
    } else {
        after_attributes(after_name)
    };
    let rest = tab_space_trimmed(rest);
    let rest = if !is_closing && rest.len() > 0 && rest[0] == '/' {
        rest.drop_first()
    } else {
        rest
    };
    if rest.len() > 0 && rest[0] == '>' {
        Some(rest.drop_first())
    } else {
        None
    }
}

/// Whether the tag name ends where `after_name` begins: at the end of the
/// text, at CommonMark whitespace, at `>`, or — where `allow_self_closing` —
/// at `/>`.
pub open spec fn tag_name_ended(after_name: Seq<char>, allow_self_closing: bool) -> bool {
    ||| after_name.len() == 0
    ||| {
        let c = after_name[0];
        c == ' ' || c == '\t' || c == '\u{0B}' || c == '\u{0C}' || c == '\r' || c == '>'
    }
    ||| (allow_self_closing && starts_with(after_name, seq!['/', '>']))
}

/// Whether `line` meets one of the seven start conditions, read off the `<`
/// that opens it after at most three spaces.
pub open spec fn opens_block_on_line(line: Seq<char>) -> bool {
    let indent = span(line, CharClass::Space);
    let indented = line.skip(indent as int);
    if indent > 3 || indented.len() == 0 || indented[0] != '<' {
        false
    } else {
        let rest = indented.drop_first();
        if starts_with(rest, seq!['!', '-', '-']) || starts_with(rest, seq!['?']) || starts_with(
            rest,
            seq!['!', '[', 'C', 'D', 'A', 'T', 'A', '['],
        ) || (rest.len() >= 2 && rest[0] == '!' && is_ascii_alpha(rest[1])) {
            // Conditions 2 to 5.
            true
        } else {
            let is_closing = rest.len() > 0 && rest[0] == '/';
            let after_mark = if is_closing {
                rest.drop_first()
            } else {
                rest
            };
            match tag_name_length(after_mark) {
                None => false,
                Some(n) => {
                    let name = ascii_lowercase(after_mark.take(n as int));
                    let after_name = after_mark.skip(n as int);
                    let is_raw_text = is_raw_text_name(name);
                    let is_type_6 = !is_raw_text && is_block_name(name);
                    if !is_closing && is_raw_text && tag_name_ended(after_name, false) {
                        // Condition 1.
                        true
                    } else if is_type_6 && tag_name_ended(after_name, true) {
                        // Condition 6.
                        true
                    } else if is_raw_text && !is_closing {
                        false
                    } else {
                        // Condition 7.
                        match after_complete_tag(after_name, is_closing) {
                            None => false,
                            Some(after_tag) => span(after_tag, CharClass::TabSpace)
                                == after_tag.len(),
                        }
                    }
                }
            }
        }
    }
}

/// Whether `content` opens an HTML block: its first line does.
pub open spec fn opens_block(content: Seq<char>) -> bool {
    match first_line(content) {
        Some(line) => opens_block_on_line(line),
        None => false,
    }
}

/// Every reader hands back a suffix of what it was given.
pub proof fn lemma_after_attribute_value_suffix(s: Seq<char>)
    ensures
        after_attribute_value(s) matches Some(r) ==> is_proper_suffix(r, s),
{
    if s.len() > 0 && (s[0] == '\'' || s[0] == '"') {
        let inside = s.drop_first();
        lemma_span(inside, CharClass::Not(s[0]));
        let k = span(inside, CharClass::Not(s[0]));
        if k < inside.len() {
            assert(inside.skip(k + 1 as int) =~= s.skip(s.len() - inside.skip(k + 1 as int).len()));
        }
    } else {
        lemma_span(s, CharClass::UnquotedValueChar);
        let n = span(s, CharClass::UnquotedValueChar);
        if n > 0 {
            assert(s.skip(n as int) =~= s.skip(s.len() - s.skip(n as int).len()));
        }
    }
}

/// An attribute takes at least its leading whitespace off the text.
pub proof fn lemma_after_attribute_suffix(s: Seq<char>)
    ensures
        after_attribute(s) matches Some(r) ==> is_proper_suffix(r, s),
{
    if s.len() > 0 && is_tab_space(s[0]) {
        let s1 = s.drop_first();
        lemma_span(s1, CharClass::TabSpace);
        let rest = tab_space_trimmed(s1);
        assert(rest =~= s.skip(s.len() - rest.len()));
        if let Some(n) = attribute_name_length(rest) {
            lemma_span(rest, CharClass::AttributeNameChar);
            let rest2 = rest.skip(n as int);
            assert(rest2 =~= s.skip(s.len() - rest2.len()));
            let before_equals = tab_space_trimmed(rest2);
            lemma_span(rest2, CharClass::TabSpace);
            assert(before_equals =~= s.skip(s.len() - before_equals.len()));
            if before_equals.len() > 0 && before_equals[0] == '=' {
                let t = before_equals.drop_first();
                lemma_span(t, CharClass::TabSpace);
                let v = tab_space_trimmed(t);
                assert(v =~= s.skip(s.len() - v.len()));
                lemma_after_attribute_value_suffix(v);
                if let Some(r) = after_attribute_value(v) {
                    assert(r =~= s.skip(s.len() - r.len()));
                }
            }
        }
    }
}

/// Which of the two lists of block elements a name is looked up in.
pub enum ElementList {
    /// The raw text elements of the first start condition.
    RawText,
    /// Every block element: the raw text ones and those of the sixth condition.
    Block,
}

/// Whether the name is on the list.
pub open spec fn on_list(name: Seq<char>, list: ElementList) -> bool {
    match list {
        ElementList::RawText => is_raw_text_name(name),
        ElementList::Block => is_block_name(name),
    }
}

/// `text` without the spaces and tabs at its start, the only whitespace a tag
/// may hold between its name, its attributes and its `>`.
pub fn trim_tab_space(text: &[char]) -> (r: &[char])
    ensures
        r@ == tab_space_trimmed(text@),
{
    let n = run_len(text, CharClass::TabSpace);
    proof {
        lemma_span(text@, CharClass::TabSpace);
    }
    let r = slice_subrange(text, n, text.len());
    assert(r@ =~= tab_space_trimmed(text@));
    r
}

/// Whether `name`, read case-insensitively, is on `list`; CommonMark reads
/// the tag name of every start condition that way.
pub fn matches_ignore_ascii_case(name: &[char], list: ElementList) -> (r: bool)
    ensures
        r == on_list(ascii_lowercase(name@), list),
{
    let mut lower: Vec<char> = Vec::new();
    let mut i: usize = 0;
    while i < name.len()
        invariant
            i <= name.len(),
            lower@ =~= ascii_lowercase(name@.take(i as int)),
        decreases name.len() - i,
    {
        lower.push(to_ascii_lower(name[i]));
        i += 1;
        assert(ascii_lowercase(name@.take(i as int)) =~= ascii_lowercase(
            name@.take(i - 1 as int),
        ).push(ascii_lower(name@[i - 1])));
    }
    assert(name@.take(name.len() as int) =~= name@);
    match list {
        ElementList::RawText => is_type_1_element(lower.as_slice()),
        ElementList::Block => is_block_element(lower.as_slice()),
    }
}

/// The length of the [tag name](https://spec.commonmark.org/0.31.2/#tag-name)
/// at the start of `text`, or `None` when there is not one there.
pub fn tag_name_len(text: &[char]) -> (r: Option<usize>)
    ensures
        r == opt_usize(tag_name_length(text@)),
{
    if text.len() == 0 || !is_ascii_alphabetic(text[0]) {
        return None;
    }
    Some(run_len(text, CharClass::TagNameChar))
}

/// The length of the
/// [attribute name](https://spec.commonmark.org/0.31.2/#attribute-name) at the
/// start of `text`, or `None` when there is not one there.
pub fn attribute_name_len(text: &[char]) -> (r: Option<usize>)
    ensures
        r == opt_usize(attribute_name_length(text@)),
{
    if text.len() == 0 {
        return None;
    }
    let first = text[0];
    if !is_ascii_alphabetic(first) && first != '_' && first != ':' {
        return None;
    }
    Some(run_len(text, CharClass::AttributeNameChar))
}

/// What follows the
/// [attribute value](https://spec.commonmark.org/0.31.2/#attribute-value) at
/// the start of `text`, or `None` when there is not one there.
pub fn attribute_value_end(text: &[char]) -> (r: Option<&[char]>)
    ensures
        opt_view(r) == after_attribute_value(text@),
{
    if text.len() > 0 && (text[0] == '\'' || text[0] == '"') {
        let quote = text[0];
        let inside = slice_subrange(text, 1, text.len());
        assert(inside@ =~= text@.drop_first());
        let k = run_len(inside, CharClass::Not(quote));
        proof {
            lemma_span(inside@, CharClass::Not(quote));
        }
        if k < inside.len() {
            let r = slice_subrange(inside, k + 1, inside.len());
            assert(r@ =~= inside@.skip(k + 1 as int));
            return Some(r);
        }
        return None;
    }
    let n = run_len(text, CharClass::UnquotedValueChar);
    proof {
        lemma_span(text@, CharClass::UnquotedValueChar);
    }
    if n > 0 {
        let r = slice_subrange(text, n, text.len());
        assert(r@ =~= text@.skip(n as int));
        Some(r)
    } else {
        None
    }
}

/// What follows the one
/// [attribute](https://spec.commonmark.org/0.31.2/#attribute) at the start of
/// `text`, or `None` when there is not one there.
pub fn attribute_end(text: &[char]) -> (r: Option<&[char]>)
    ensures
        opt_view(r) == after_attribute(text@),
{
    if text.len() == 0 || !(text[0] == ' ' || text[0] == '\t') {
        return None;
    }
    let after_space = slice_subrange(text, 1, text.len());
    assert(after_space@ =~= text@.drop_first());
    let rest = trim_tab_space(after_space);
    let n = match attribute_name_len(rest) {
        Some(n) => n,
        None => return None,
    };
    proof {
        lemma_span(rest@, CharClass::AttributeNameChar);
    }
    let rest = slice_subrange(rest, n, rest.len());
    let before_equals = trim_tab_space(rest);
    if before_equals.len() > 0 && before_equals[0] == '=' {
        let after_equals = slice_subrange(before_equals, 1, before_equals.len());
        assert(after_equals@ =~= before_equals@.drop_first());
        attribute_value_end(trim_tab_space(after_equals))
    } else {
        Some(rest)
    }
}

/// What follows the complete
/// [open](https://spec.commonmark.org/0.31.2/#open-tag) or
/// [closing tag](https://spec.commonmark.org/0.31.2/#closing-tag) whose name
/// ends at the start of `after_name`, or `None` when the tag is not complete.
pub fn complete_tag_end(after_name: &[char], is_closing: bool) -> (r: Option<&[char]>)
    ensures
        opt_view(r) == after_complete_tag(after_name@, is_closing),
{
    let mut rest = after_name;
    if !is_closing {
        loop
            invariant
                after_attributes(rest@) == after_attributes(after_name@),
            ensures
                after_attribute(rest@) is None,
                after_attributes(rest@) == after_attributes(after_name@),
            decreases rest.len(),
        {
            match attribute_end(rest) {
                Some(after_attribute) => {
                    proof {
                        lemma_after_attribute_suffix(rest@);
                    }
                    rest = after_attribute;
                },
                None => break,
            }
        }
        assert(after_attributes(rest@) == rest@);
    }
    let rest = trim_tab_space(rest);
    let rest = if !is_closing && rest.len() > 0 && rest[0] == '/' {
        let r = slice_subrange(rest, 1, rest.len());
        assert(r@ =~= rest@.drop_first());
        r
    } else {
        rest
    };
    if rest.len() > 0 && rest[0] == '>' {
        let r = slice_subrange(rest, 1, rest.len());
        assert(r@ =~= rest@.drop_first());
        Some(r)
    } else {
        None
    }
}

/// Whether the [tag name](https://spec.commonmark.org/0.31.2/#tag-name) ends
/// where `after_name` begins. A condition 6 tag may also be self-closing, which
/// `allow_self_closing` adds; a condition 1 tag may not.
pub fn ends_tag_name(after_name: &[char], allow_self_closing: bool) -> (r: bool)
    ensures
        r == tag_name_ended(after_name@, allow_self_closing),
{
    if after_name.len() == 0 {
        return true;
    }
    let c = after_name[0];
    if c == ' ' || c == '\t' || c == '\u{0B}' || c == '\u{0C}' || c == '\r' || c == '>' {
        return true;
    }
    let r = allow_self_closing && after_name.len() >= 2 && after_name[0] == '/' && after_name[1]
        == '>';
    assert(after_name@.len() >= 2 ==> (starts_with(after_name@, seq!['/', '>']) <==> (
    after_name@[0] == '/' && after_name@[1] == '>'))) by {
        if after_name@.len() >= 2 && after_name@[0] == '/' && after_name@[1] == '>' {
            assert(after_name@.take(2) =~= seq!['/', '>']);
        }
    }
    r
}

/// Whether `s` opens with the characters of `prefix`.
fn opens_with(s: &[char], prefix: &[char]) -> (r: bool)
    ensures
        r == starts_with(s@, prefix@),
{
    if prefix.len() > s.len() {
        return false;
    }
    let mut i: usize = 0;
    while i < prefix.len()
        invariant
            prefix.len() <= s.len(),
            i <= prefix.len(),
            forall|j: int| 0 <= j < i ==> s@[j] == prefix@[j],
        decreases prefix.len() - i,
    {
        if s[i] != prefix[i] {
            assert(s@.take(prefix.len() as int)[i as int] != prefix@[i as int]);
            return false;
        }
        i += 1;
    }
    assert(s@.take(prefix.len() as int) =~= prefix@);
    true
}

/// Whether the one `line` meets a start condition; see [`opens_html_block`].
pub fn line_opens_html_block(line: &[char]) -> (r: bool)
    ensures
        r == opens_block_on_line(line@),
{
    // A fourth space of indentation makes the line indented code instead.
    let indent = run_len(line, CharClass::Space);
    proof {
        lemma_span(line@, CharClass::Space);
    }
    if indent > 3 {
        return false;
    }
    let indented = slice_subrange(line, indent, line.len());
    assert(indented@ =~= line@.skip(indent as int));
    if indented.len() == 0 || indented[0] != '<' {
        return false;
    }
    let rest = slice_subrange(indented, 1, indented.len());
    assert(rest@ =~= indented@.drop_first());
    // Conditions 2-5: a comment, a processing instruction, a declaration and a
    // CDATA section.
    let comment: [char; 3] = ['!', '-', '-'];
    let cdata: [char; 8] = ['!', '[', 'C', 'D', 'A', 'T', 'A', '['];
    assert(comment@ =~= seq!['!', '-', '-']);
    assert(cdata@ =~= seq!['!', '[', 'C', 'D', 'A', 'T', 'A', '[']);
    let is_processing = rest.len() > 0 && rest[0] == '?';
    assert(is_processing == starts_with(rest@, seq!['?'])) by {
        if rest@.len() > 0 && rest@[0] == '?' {
            assert(rest@.take(1) =~= seq!['?']);
        }
        if starts_with(rest@, seq!['?']) {
            assert(rest@.take(1)[0] == '?');
        }
    }
    if opens_with(rest, &comment) || is_processing || opens_with(rest, &cdata) || (rest.len() >= 2
        && rest[0] == '!' && is_ascii_alphabetic(rest[1])) {
        return true;
    }
    let is_closing = rest.len() > 0 && rest[0] == '/';
    let after_mark = if is_closing {
        let a = slice_subrange(rest, 1, rest.len());
        assert(a@ =~= rest@.drop_first());
        a
    } else {
        rest
    };
    let name_len = match tag_name_len(after_mark) {
        Some(n) => n,
        None => return false,
    };
    proof {
        lemma_span(after_mark@, CharClass::TagNameChar);
    }
    let name = slice_subrange(after_mark, 0, name_len);
    let after_name = slice_subrange(after_mark, name_len, after_mark.len());
    assert(name@ =~= after_mark@.take(name_len as int));
    assert(after_name@ =~= after_mark@.skip(name_len as int));
    // The block element list is the type 1 list plus the type 6 one.
    let is_raw_text = matches_ignore_ascii_case(name, ElementList::RawText);
    let is_type_6 = !is_raw_text && matches_ignore_ascii_case(name, ElementList::Block);

    // Condition 1: an opening raw text tag only.
    if !is_closing && is_raw_text && ends_tag_name(after_name, false) {
        return true;
    }
    // Condition 6: a block-level tag, opening or closing.
    if is_type_6 && ends_tag_name(after_name, true) {
        return true;
    }
    // Condition 7: a complete tag of any other name with nothing but whitespace
    // after it. The exclusion of the raw text tags is on the open tag only, so
    // a lone `</pre>` opens a block here even though `<pre/>` does not.
    if is_raw_text && !is_closing {
        return false;
    }
    match complete_tag_end(after_name, is_closing) {
        None => false,
        Some(after_tag) => run_len(after_tag, CharClass::TabSpace) == after_tag.len(),
    }
}

/// Whether `content`, placed at the start of a line, meets one of CommonMark's
/// seven [HTML block](https://spec.commonmark.org/0.31.2/#html-blocks) start
/// conditions.
///
/// Only the first line is examined: every handler encodes, collapses or drops
/// a line ending it writes in an inline context, so there is no later line for
/// a block to open on.
pub fn opens_html_block(content: &str) -> (r: bool)
    ensures
        r == opens_block(content@),
{
    let text = chars_of(content);
    opens_html_block_chars(text.as_slice())
}

/// [`opens_html_block`] on the characters of the content.
pub fn opens_html_block_chars(content: &[char]) -> (r: bool)
    ensures
        r == opens_block(content@),
{
    if content.len() == 0 {
        return false;
    }
    let line = crate::text::first_line_of(content);
    line_opens_html_block(line)
}

/// Only the first line counts: whatever follows the first line ending, the
/// answer is the same.
pub proof fn lemma_only_the_first_line_counts(first: Seq<char>, after: Seq<char>, other: Seq<char>)
    requires
        !first.contains('\n'),
    ensures
        opens_block(first + seq!['\n'] + after) == opens_block(first + seq!['\n'] + other),
{
    let s1 = first + seq!['\n'] + after;
    let s2 = first + seq!['\n'] + other;
    assert forall|i: int| 0 <= i < first.len() implies in_class(#[trigger] s1[i], CharClass::Not('\n')) by {
        assert(s1[i] == first[i]);
    }
    assert forall|i: int| 0 <= i < first.len() implies in_class(#[trigger] s2[i], CharClass::Not('\n')) by {
        assert(s2[i] == first[i]);
    }
    lemma_span_unique(s1, CharClass::Not('\n'), first.len() as int);
    lemma_span_unique(s2, CharClass::Not('\n'), first.len() as int);
    assert(s1.take(first.len() as int) =~= first);
    assert(s2.take(first.len() as int) =~= first);
    assert(lines(s1)[0] == without_cr(first));
    assert(lines(s2)[0] == without_cr(first));
}

/// Four spaces of indentation make indented code, which no HTML block
/// interrupts.
pub proof fn lemma_indented_code_opens_no_block(content: Seq<char>)
    requires
        content.len() >= 4,
        forall|i: int| 0 <= i < 4 ==> content[i] == ' ',
    ensures
        !opens_block(content),
{
    lemma_span(content, CharClass::Not('\n'));
    let n = span(content, CharClass::Not('\n'));
    assert(n >= 4) by {
        if n < 4 {
            assert(content[n as int] == ' ');
        }
    }
    let line = lines(content)[0];
    assert(line.len() >= 4 && forall|i: int| 0 <= i < 4 ==> line[i] == ' ') by {
        if n < content.len() {
            assert(line == without_cr(content.take(n as int)));
        }
    }
    lemma_span(line, CharClass::Space);
    assert(span(line, CharClass::Space) >= 4) by {
        if span(line, CharClass::Space) < 4 {
            assert(line[span(line, CharClass::Space) as int] == ' ');
        }
    }
}

/// Small and capital letters of a tag name are one: the name that follows a
/// `<` decides the same whichever case it is written in.
pub proof fn lemma_tag_names_ignore_case(name: Seq<char>, rest: Seq<char>)
    requires
        tag_name_length(name) == Some(name.len()),
        rest.len() == 0 || !in_class(rest[0], CharClass::TagNameChar),
    ensures
        opens_block_on_line(seq!['<'] + name + rest) == opens_block_on_line(
            seq!['<'] + ascii_lowercase(name) + rest,
        ),
{
    let lower = ascii_lowercase(name);
    lemma_span(name, CharClass::TagNameChar);
    assert forall|i: int| 0 <= i < lower.len() implies in_class(#[trigger] lower[i], CharClass::TagNameChar) by {
        assert(in_class(name[i], CharClass::TagNameChar));
    }
    assert(ascii_lowercase(lower) =~= lower);
    let l1 = seq!['<'] + name + rest;
    let l2 = seq!['<'] + lower + rest;
    lemma_span_unique(l1, CharClass::Space, 0);
    lemma_span_unique(l2, CharClass::Space, 0);
    assert(l1.skip(0) =~= l1);
    assert(l2.skip(0) =~= l2);
    let m1 = l1.drop_first();
    let m2 = l2.drop_first();
    assert(m1 =~= name + rest);
    assert(m2 =~= lower + rest);
    assert forall|i: int| 0 <= i < name.len() implies in_class(#[trigger] m1[i], CharClass::TagNameChar) by {
        assert(m1[i] == name[i]);
    }
    assert forall|i: int| 0 <= i < name.len() implies in_class(#[trigger] m2[i], CharClass::TagNameChar) by {
        assert(m2[i] == lower[i]);
    }
    if rest.len() > 0 {
        assert(m1[name.len() as int] == rest[0]);
        assert(m2[name.len() as int] == rest[0]);
    }
    lemma_span_unique(m1, CharClass::TagNameChar, name.len() as int);
    lemma_span_unique(m2, CharClass::TagNameChar, name.len() as int);
    assert(m1.take(name.len() as int) =~= name);
    assert(m2.take(name.len() as int) =~= lower);
    assert(m1.skip(name.len() as int) =~= rest);
    assert(m2.skip(name.len() as int) =~= rest);
    assert(is_ascii_alpha(m2[0]));
    assert(!starts_with(m1, seq!['!', '-', '-']) && !starts_with(m2, seq!['!', '-', '-'])) by {
        if starts_with(m1, seq!['!', '-', '-']) { assert(m1.take(3)[0] == '!'); }
        if starts_with(m2, seq!['!', '-', '-']) { assert(m2.take(3)[0] == '!'); }
    }
    assert(!starts_with(m1, seq!['?']) && !starts_with(m2, seq!['?'])) by {
        if starts_with(m1, seq!['?']) { assert(m1.take(1)[0] == '?'); }
        if starts_with(m2, seq!['?']) { assert(m2.take(1)[0] == '?'); }
    }
    assert(!starts_with(m1, seq!['!', '[', 'C', 'D', 'A', 'T', 'A', '['])
        && !starts_with(m2, seq!['!', '[', 'C', 'D', 'A', 'T', 'A', '['])) by {
        if starts_with(m1, seq!['!', '[', 'C', 'D', 'A', 'T', 'A', '[']) { assert(m1.take(8)[0] == '!'); }
        if starts_with(m2, seq!['!', '[', 'C', 'D', 'A', 'T', 'A', '[']) { assert(m2.take(8)[0] == '!'); }
    }
}

/// The same holds of a closing tag: the name after a `</` decides the same
/// whichever case it is written in.
pub proof fn lemma_closing_tag_names_ignore_case(name: Seq<char>, rest: Seq<char>)
    requires
        tag_name_length(name) == Some(name.len()),
        rest.len() == 0 || !in_class(rest[0], CharClass::TagNameChar),
    ensures
        opens_block_on_line(seq!['<', '/'] + name + rest) == opens_block_on_line(
            seq!['<', '/'] + ascii_lowercase(name) + rest,
        ),
{
    let lower = ascii_lowercase(name);
    lemma_span(name, CharClass::TagNameChar);
    assert forall|i: int| 0 <= i < lower.len() implies in_class(#[trigger] lower[i], CharClass::TagNameChar) by {
        assert(in_class(name[i], CharClass::TagNameChar));
    }
    assert(ascii_lowercase(lower) =~= lower);
    let l1 = seq!['<', '/'] + name + rest;
    let l2 = seq!['<', '/'] + lower + rest;
    lemma_span_unique(l1, CharClass::Space, 0);
    lemma_span_unique(l2, CharClass::Space, 0);
    assert(l1.skip(0) =~= l1);
    assert(l2.skip(0) =~= l2);
    let r1 = l1.drop_first();
    let r2 = l2.drop_first();
    assert(r1[0] == '/' && r2[0] == '/');
    let m1 = r1.drop_first();
    let m2 = r2.drop_first();
    assert(m1 =~= name + rest);
    assert(m2 =~= lower + rest);
    assert forall|i: int| 0 <= i < name.len() implies in_class(#[trigger] m1[i], CharClass::TagNameChar) by {
        assert(m1[i] == name[i]);
    }
    assert forall|i: int| 0 <= i < name.len() implies in_class(#[trigger] m2[i], CharClass::TagNameChar) by {
        assert(m2[i] == lower[i]);
    }
    if rest.len() > 0 {
        assert(m1[name.len() as int] == rest[0]);
        assert(m2[name.len() as int] == rest[0]);
    }
    lemma_span_unique(m1, CharClass::TagNameChar, name.len() as int);
    lemma_span_unique(m2, CharClass::TagNameChar, name.len() as int);
    assert(m1.take(name.len() as int) =~= name);
    assert(m2.take(name.len() as int) =~= lower);
    assert(m1.skip(name.len() as int) =~= rest);
    assert(m2.skip(name.len() as int) =~= rest);
    assert(!starts_with(r1, seq!['!', '-', '-']) && !starts_with(r2, seq!['!', '-', '-'])) by {
        if starts_with(r1, seq!['!', '-', '-']) { assert(r1.take(3)[0] == '!'); }
        if starts_with(r2, seq!['!', '-', '-']) { assert(r2.take(3)[0] == '!'); }
    }
    assert(!starts_with(r1, seq!['?']) && !starts_with(r2, seq!['?'])) by {
        if starts_with(r1, seq!['?']) { assert(r1.take(1)[0] == '?'); }
        if starts_with(r2, seq!['?']) { assert(r2.take(1)[0] == '?'); }
    }
    assert(!starts_with(r1, seq!['!', '[', 'C', 'D', 'A', 'T', 'A', '['])
        && !starts_with(r2, seq!['!', '[', 'C', 'D', 'A', 'T', 'A', '['])) by {
        if starts_with(r1, seq!['!', '[', 'C', 'D', 'A', 'T', 'A', '[']) { assert(r1.take(8)[0] == '!'); }
        if starts_with(r2, seq!['!', '[', 'C', 'D', 'A', 'T', 'A', '[']) { assert(r2.take(8)[0] == '!'); }
    }
}

/// No name is on both lists: the sixth condition's elements are not raw text.
proof fn lemma_type_6_is_not_raw_text(name: Seq<char>)
    requires
        is_type_6_name(name),
    ensures
        !is_raw_text_name(name),
{
    if is_raw_text_name(name) {
        assert(name[0] == 'p' || name[0] == 's' || name[0] == 't');
        assert(name.len() == 3 ==> name[1] == 'r' && name[2] == 'e');
        assert(name.len() == 5 ==> name[1] == 't');
        assert(name.len() == 6 ==> name[1] == 'c');
        assert(name.len() == 8 ==> name[1] == 'e');
    }
}

/// A name of the sixth condition, written in any case, is a tag name through
/// and through.
proof fn lemma_type_6_names_are_tag_names(name: Seq<char>)
    requires
        is_type_6_name(ascii_lowercase(name)),
    ensures
        tag_name_length(name) == Some(name.len()),
{
    let lower = ascii_lowercase(name);
    assert(lower.len() == name.len());
    assert forall|i: int| 0 <= i < lower.len() implies in_class(#[trigger] lower[i], CharClass::TagNameChar) by {
    }
    assert(is_ascii_alpha(lower[0]));
    assert forall|i: int| 0 <= i < name.len() implies in_class(#[trigger] name[i], CharClass::TagNameChar) by {
        assert(lower[i] == ascii_lower(name[i]));
        assert(in_class(lower[i], CharClass::TagNameChar));
    }
    assert(lower[0] == ascii_lower(name[0]));
    lemma_span_unique(name, CharClass::TagNameChar, name.len() as int);
}

/// A block-level name of the sixth start condition, in any case, right after
/// `<` or `</`, opens an HTML block when the line ends there or goes on with
/// whitespace, `>` or `/>`, whatever the rest of the line holds.
pub proof fn lemma_block_name_opens_block(name: Seq<char>, after: Seq<char>)
    requires
        is_type_6_name(ascii_lowercase(name)),
        after.len() == 0 || after[0] == ' ' || after[0] == '\t' || after[0] == '\u{0B}'
            || after[0] == '\u{0C}' || after[0] == '\r' || after[0] == '>' || (after.len() >= 2
            && after[0] == '/' && after[1] == '>'),
    ensures
        opens_block_on_line(seq!['<'] + name + after),
        opens_block_on_line(seq!['<', '/'] + name + after),
{
    lemma_type_6_names_are_tag_names(name);
    lemma_type_6_is_not_raw_text(ascii_lowercase(name));
    lemma_span(name, CharClass::TagNameChar);
    let l1 = seq!['<'] + name + after;
    let l2 = seq!['<', '/'] + name + after;
    lemma_span_unique(l1, CharClass::Space, 0);
    lemma_span_unique(l2, CharClass::Space, 0);
    assert(l1.skip(0) =~= l1);
    assert(l2.skip(0) =~= l2);
    let m1 = l1.drop_first();
    let r2 = l2.drop_first();
    let m2 = r2.drop_first();
    assert(m1 =~= name + after);
    assert(m2 =~= name + after);
    assert(r2[0] == '/');
    assert forall|i: int| 0 <= i < name.len() implies in_class(#[trigger] m1[i], CharClass::TagNameChar) by {
        assert(m1[i] == name[i]);
    }
    assert forall|i: int| 0 <= i < name.len() implies in_class(#[trigger] m2[i], CharClass::TagNameChar) by {
        assert(m2[i] == name[i]);
    }
    if after.len() > 0 {
        assert(m1[name.len() as int] == after[0]);
        assert(m2[name.len() as int] == after[0]);
    }
    lemma_span_unique(m1, CharClass::TagNameChar, name.len() as int);
    lemma_span_unique(m2, CharClass::TagNameChar, name.len() as int);
    assert(m1.take(name.len() as int) =~= name);
    assert(m2.take(name.len() as int) =~= name);
    assert(m1.skip(name.len() as int) =~= after);
    assert(m2.skip(name.len() as int) =~= after);
    assert(is_ascii_alpha(m1[0]));
    assert(tag_name_ended(after, true)) by {
        if after.len() >= 2 && after[0] == '/' && after[1] == '>' {
            assert(after.take(2) =~= seq!['/', '>']);
        }
    }
    assert(!starts_with(m1, seq!['!', '-', '-'])) by {
        if starts_with(m1, seq!['!', '-', '-']) { assert(m1.take(3)[0] == '!'); }
    }
    assert(!starts_with(m1, seq!['?'])) by {
        if starts_with(m1, seq!['?']) { assert(m1.take(1)[0] == '?'); }
    }
    assert(!starts_with(m1, seq!['!', '[', 'C', 'D', 'A', 'T', 'A', '['])) by {
        if starts_with(m1, seq!['!', '[', 'C', 'D', 'A', 'T', 'A', '[']) { assert(m1.take(8)[0] == '!'); }
    }
    assert(!starts_with(r2, seq!['!', '-', '-'])) by {
        if starts_with(r2, seq!['!', '-', '-']) { assert(r2.take(3)[0] == '!'); }
    }
    assert(!starts_with(r2, seq!['?'])) by {
        if starts_with(r2, seq!['?']) { assert(r2.take(1)[0] == '?'); }
    }
    assert(!starts_with(r2, seq!['!', '[', 'C', 'D', 'A', 'T', 'A', '['])) by {
        if starts_with(r2, seq!['!', '[', 'C', 'D', 'A', 'T', 'A', '[']) { assert(r2.take(8)[0] == '!'); }
    }
}

} // verus!
