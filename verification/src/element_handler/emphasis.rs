//! Emphasis: where the markers of an `<em>` or `<strong>` go, what has to be
//! written outside them, and when they cannot be written at all.

use vstd::prelude::*;
use vstd::slice::slice_subrange;

use crate::block_elements::{is_block_element, is_block_name};
use crate::chars::{
    CharClass, ascii_lower, ascii_lowercase, back_run_len, back_span, in_class,
    alphanumeric, is_alphanumeric, is_unicode_whitespace, is_whitespace,
    lemma_back_span, lemma_span, lemma_span_unique, run_len, span, to_ascii_lower,
};
use crate::dom::{AncestorFrame, Direction, DomNode, adjacent_from, following_char, holds_block, holds_block_element, preceding_char};
use crate::element_handler::{HandlerOutcome, Written, written};
use crate::text::{append_chars, contains_char, chars_of, joined, lemma_inclusive_lines_joined, inclusive_line_end, inclusive_lines, lemma_encode_utf8_concat, line_at, lines, opt_view, str_prefix_len, string_of, utf8_len};

verus! {

// ---------------------------------------------------------------------------
// What the readers below decide, stated over the characters of the text.
// ---------------------------------------------------------------------------

/// Whether the backslash run `text` ends on has odd length, which makes its
/// last backslash a hard break's own marker rather than half of an escaped
/// literal backslash.
pub open spec fn odd_backslash_run(text: Seq<char>) -> bool {
    back_span(text, CharClass::Is('\\')) % 2 == 1
}

/// Whether `line` holds nothing but spaces and tabs.
pub open spec fn blank(line: Seq<char>) -> bool {
    span(line, CharClass::TabSpace) == line.len()
}

/// `line` without the `\n` it ends on and then without a `\r` it then ends
/// on.
pub open spec fn text_of_line(line: Seq<char>) -> Seq<char> {
    let text = if line.len() > 0 && line.last() == '\n' {
        line.drop_last()
    } else {
        line
    };
    if text.len() > 0 && text.last() == '\r' {
        text.drop_last()
    } else {
        text
    }
}

/// The delimiter run of the code fence `line` opens, if it opens one: at
/// most three spaces, then three or more backticks or tildes; a backtick run
/// may not be followed by a backtick anywhere on the line.
pub open spec fn fence_opened(line: Seq<char>) -> Option<Seq<char>> {
    let indent = span(line, CharClass::Space);
    let text = line.skip(indent as int);
    if indent >= 4 || text.len() == 0 || !(text[0] == '`' || text[0] == '~') {
        None
    } else {
        let symbol = text[0];
        let run = span(text, CharClass::Is(symbol));
        if run < 3 || (symbol == '`' && text.skip(run as int).contains('`')) {
            None
        } else {
            Some(text.take(run as int))
        }
    }
}

/// Whether `line` closes the fence `open` opened: a fence of the same symbol,
/// at least as long, with nothing after it but spaces and tabs.
pub open spec fn fence_closed(line: Seq<char>, open: Seq<char>) -> bool {
    match fence_opened(line) {
        Some(delimiter) => {
            let text = line.skip(span(line, CharClass::Space) as int);
            let after = text.skip(span(text, CharClass::Is(delimiter[0])) as int);
            &&& delimiter[0] == open[0]
            &&& delimiter.len() >= open.len()
            &&& span(after, CharClass::TabSpace) == after.len()
        },
        None => false,
    }
}

/// `s` without the spaces and tabs at either end.
pub open spec fn tab_space_trimmed_both(s: Seq<char>) -> Seq<char> {
    let t = s.skip(span(s, CharClass::TabSpace) as int);
    t.take(t.len() - back_span(t, CharClass::TabSpace))
}

/// Whether `line` is a table's delimiter row: pipes, dashes, colons, spaces
/// and tabs only, opening with a pipe and holding a dash.
pub open spec fn table_delimiter_row(line: Seq<char>) -> bool {
    let text = tab_space_trimmed_both(line);
    &&& text.contains('-')
    &&& text.len() > 0 && text[0] == '|'
    &&& forall|i: int|
        0 <= i < text.len() ==> (#[trigger] text[i] == '|' || text[i] == '-' || text[i] == ':'
            || text[i] == ' ' || text[i] == '\t')
}

/// Whether `text` opens an ordered list: one to nine digits, a `.`, and a
/// space or tab.
pub open spec fn ordered_list_opened(text: Seq<char>) -> bool {
    let digits = span(text, CharClass::Digit);
    &&& 1 <= digits <= 9
    &&& digits + 1 < text.len()
    &&& text[digits as int] == '.'
    &&& (text[digits + 1 as int] == ' ' || text[digits + 1 as int] == '\t')
}

/// Whether the `<` that `text` opens with begins an HTML block: a comment,
/// declaration, CDATA section or processing instruction, or a tag of a block
/// element.
pub open spec fn tag_opens_block(text: Seq<char>) -> bool {
    let after = text.drop_first();
    if after.len() > 0 && (after[0] == '!' || after[0] == '?') {
        true
    } else {
        let name = if after.len() > 0 && after[0] == '/' {
            after.drop_first()
        } else {
            after
        };
        is_block_name(ascii_lowercase(name.take(span(name, CharClass::AsciiAlnum) as int)))
    }
}

/// Whether `line` is ordinary text rather than the opening of some other
/// block or the underline of a Setext heading; `is_first` says whether it is
/// the first line of its paragraph.
pub open spec fn paragraph_line(line: Seq<char>, is_first: bool) -> bool {
    let indent = span(line, CharClass::Space);
    let text = line.skip(indent as int);
    if indent >= 4 || (text.len() > 0 && text[0] == '\t') {
        // Indented code.
        false
    } else if text.len() == 0 {
        true
    } else {
        let first = text[0];
        let hashes = span(text, CharClass::Is('#'));
        if first == '>' {
            // A block quote.
            false
        } else if first == '#' && hashes <= 6 && hashes < text.len() && text[hashes as int]
            == ' ' {
            // An ATX heading.
            false
        } else if first == '<' && tag_opens_block(text) {
            false
        } else if (first == '*' || first == '-' || first == '_' || first == '=') && (forall|i: int|
            0 <= i < text.len() ==> (#[trigger] text[i] == first || text[i] == ' ' || text[i]
                == '\t')) && !(is_first && (first == '-' || first == '=')) {
            // A thematic break or a Setext underline.
            false
        } else if (first == '*' || first == '-' || first == '+') && text.len() > 1 && (text[1]
            == ' ' || text[1] == '\t') {
            // A bullet.
            false
        } else {
            fence_opened(text) is None && !ordered_list_opened(text)
        }
    }
}

/// Whether every line of `p` is ordinary text and no line after the first is
/// a table's delimiter row: the one kind of block a pair of markers can wrap.
pub open spec fn paragraph(p: Seq<char>) -> bool {
    let ls = lines(p);
    &&& forall|i: int| 0 <= i < ls.len() ==> paragraph_line(#[trigger] ls[i], i == 0)
    &&& forall|i: int| 1 <= i < ls.len() ==> !table_delimiter_row(#[trigger] ls[i])
}

/// Whether a marker written against `rest` would join a delimiter run of the
/// marker's character already at its start, or at its end unless escaped.
pub open spec fn fuses(rest: Seq<char>, marker: Seq<char>) -> bool {
    let symbol = marker[0];
    ||| (rest.len() > 0 && rest[0] == symbol)
    ||| (rest.len() > 0 && rest.last() == symbol && !odd_backslash_run(rest.drop_last()))
}


/// Whether `w` holds a blank line: two line endings in a row.
pub open spec fn holds_blank_line(w: Seq<char>) -> bool {
    exists|i: int| 0 <= i < w.len() - 1 && #[trigger] w[i] == '\n' && w[i + 1] == '\n'
}

/// Where the run of backslash hard breaks that `s` holds from `len` on ends,
/// each break being a `\`, a `\n` and the whitespace after it.
pub open spec fn hard_breaks_end(s: Seq<char>, len: nat) -> nat
    decreases s.len() - len,
{
    if len + 1 < s.len() && s[len as int] == '\\' && s[len + 1 as int] == '\n' {
        let after = s.skip(len + 1 as int);
        proof {
            lemma_span(after, CharClass::Whitespace);
        }
        hard_breaks_end(s, len + 1 + span(after, CharClass::Whitespace))
    } else {
        len
    }
}

/// Where the run of backslash hard breaks that `s` holds before `end` starts,
/// each break being whitespace, an unescaped `\` and a `\n`.
pub open spec fn hard_breaks_start(s: Seq<char>, end: nat) -> nat
    decreases end,
{
    if 1 <= end < s.len() && s[end as int] == '\n' && odd_backslash_run(s.take(end as int)) {
        let before = s.take(end - 1);
        proof {
            lemma_back_span(before, CharClass::Whitespace);
        }
        hard_breaks_start(s, (before.len() - back_span(before, CharClass::Whitespace)) as nat)
    } else {
        end
    }
}

/// How many characters of `s`'s start go outside the opening marker: the
/// leading whitespace, stopping short of a hard break's line ending in
/// faithful mode unless the whitespace holds a blank line; in pure mode the
/// whitespace and any backslash hard breaks after it.
pub open spec fn leading_hoisted(s: Seq<char>, is_pure: bool) -> nat {
    let ws = span(s, CharClass::Whitespace);
    if !is_pure {
        let w = s.take(ws as int);
        if holds_blank_line(w) {
            ws
        } else {
            span(w, CharClass::Not('\n'))
        }
    } else {
        hard_breaks_end(s, ws)
    }
}

/// How many characters of `s`'s end go outside the closing marker, the mirror
/// of [`leading_hoisted`]: in faithful mode only what follows the last line
/// ending may move out, unless the whitespace holds a blank line.
pub open spec fn trailing_hoisted(s: Seq<char>, is_pure: bool) -> nat {
    let trimmed = (s.len() - back_span(s, CharClass::Whitespace)) as nat;
    if !is_pure {
        let w = s.skip(trimmed as int);
        if holds_blank_line(w) {
            w.len()
        } else {
            back_span(w, CharClass::Not('\n'))
        }
    } else {
        (s.len() - hard_breaks_start(s, trimmed)) as nat
    }
}


/// Where a paragraph is cut around the pair of markers it can carry: how many
/// of its characters go before the opening marker and how many after the
/// closing one; `None` when it cannot carry a pair — it is not a paragraph,
/// nothing is left between the hoists, or a marker would join a delimiter run
/// already at an edge.
pub open spec fn paragraph_cut(p: Seq<char>, marker: Seq<char>) -> Option<(nat, nat)> {
    if !paragraph(p) {
        None
    } else {
        let lead = leading_hoisted(p, true);
        let inner = p.skip(lead as int);
        let trail = trailing_hoisted(inner, true);
        let rest = inner.take(inner.len() - trail);
        if rest.len() == 0 || fuses(rest, marker) {
            None
        } else {
            Some((lead, trail))
        }
    }
}

/// Paragraph `p` as it is written, the decisions taken for `marker` and
/// `shown` written where each of the two markers goes.
pub open spec fn paragraph_written(p: Seq<char>, marker: Seq<char>, shown: Seq<char>) -> Seq<char> {
    match paragraph_cut(p, marker) {
        None => p,
        Some((lead, trail)) => {
            let inner = p.skip(lead as int);
            p.take(lead as int) + shown + inner.take(inner.len() - trail) + shown + inner.skip(
                inner.len() - trail,
            )
        },
    }
}

/// The rest of the text, given as the pieces `ls` of its split after each
/// `\n`, written paragraph by paragraph: `par` holds the lines of the
/// paragraph read so far and `fence` the delimiter of the code fence open, if
/// any. A blank line outside a fence ends the paragraph and is written as it
/// is.
pub open spec fn paragraphs_written(
    ls: Seq<Seq<char>>,
    par: Seq<char>,
    fence: Option<Seq<char>>,
    marker: Seq<char>,
    shown: Seq<char>,
) -> Seq<char>
    decreases ls.len(),
{
    if ls.len() == 0 {
        paragraph_written(par, marker, shown)
    } else {
        let line = ls[0];
        let text = text_of_line(line);
        match fence {
            Some(open) => paragraphs_written(
                ls.drop_first(),
                par + line,
                if fence_closed(text, open) {
                    None
                } else {
                    fence
                },
                marker,
                shown,
            ),
            None => if blank(text) {
                paragraph_written(par, marker, shown) + line + paragraphs_written(
                    ls.drop_first(),
                    seq![],
                    None,
                    marker,
                    shown,
                )
            } else {
                paragraphs_written(ls.drop_first(), par + line, fence_opened(text), marker, shown)
            },
        }
    }
}

/// `content` with each of its paragraphs written with `shown` around it where
/// it can carry a pair of `marker`s.
pub open spec fn emphasized(content: Seq<char>, marker: Seq<char>, shown: Seq<char>) -> Seq<char> {
    paragraphs_written(inclusive_lines(content), seq![], None, marker, shown)
}


/// Whether a marker against punctuation may still flank, given the character
/// on its other side: anything but an alphanumeric will do, and so does the
/// line or block edge `None` stands for.
pub open spec fn allows_flanking(adjacent: Option<char>) -> bool {
    !(adjacent is Some && alphanumeric(adjacent->0))
}

/// Whether markers around `rest` [flank](https://spec.commonmark.org/0.31.2/#left-flanking-delimiter-run)
/// it: each sits against a character of `rest` that is not whitespace, and
/// that character is alphanumeric, or whitespace moved out to the marker's
/// other side (`leading`, `trailing`), or the character there (`before`,
/// `after`) allows it.
pub open spec fn flanked(
    rest: Seq<char>,
    leading: Seq<char>,
    trailing: Seq<char>,
    before: Option<char>,
    after: Option<char>,
) -> bool {
    let first = rest[0];
    let last = rest.last();
    &&& !is_unicode_whitespace(first)
    &&& (alphanumeric(first) || leading.len() > 0 || allows_flanking(before))
    &&& !is_unicode_whitespace(last)
    &&& (alphanumeric(last) || trailing.len() > 0 || allows_flanking(after))
}

/// Whether some line of `s` is blank.
pub open spec fn some_line_blank(s: Seq<char>) -> bool {
    exists|i: int| 0 <= i < lines(s).len() && blank(#[trigger] lines(s)[i])
}

/// What an emphasis element with `content` is written as: `marker` is its
/// delimiter, `shown` what is written where each delimiter goes, `holds_block`
/// whether a block element lies beneath it, and `before` and `after` the
/// characters the output holds around it.
///
/// The hoisted edges go outside the markers. Where nothing is left between
/// them, no markers are written, and only a hard break that moved out is kept.
/// In faithful mode markers that would not flank, or that would straddle a
/// blank line, make the element HTML. In pure mode an element holding a block
/// whose content has a blank line or is no paragraph is emphasized paragraph
/// by paragraph. Otherwise a marker that would join a delimiter run already at
/// the content's edge leaves the content unmarked.
pub open spec fn emphasis_written(
    content: Seq<char>,
    marker: Seq<char>,
    shown: Seq<char>,
    is_pure: bool,
    holds_block: bool,
    before: Option<char>,
    after: Option<char>,
) -> Written {
    if content.len() == 0 {
        Written::Nothing
    } else {
        let lead = leading_hoisted(content, is_pure);
        let inner = content.skip(lead as int);
        let trail = trailing_hoisted(inner, is_pure);
        let leading = content.take(lead as int);
        let rest = inner.take(inner.len() - trail);
        let trailing = inner.skip(inner.len() - trail);
        if rest.len() == 0 {
            if leading.contains('\n') || trailing.contains('\n') {
                Written::Markdown(leading + trailing)
            } else {
                Written::Nothing
            }
        } else if !is_pure && (!flanked(rest, leading, trailing, before, after) || some_line_blank(
            rest,
        )) {
            Written::Html
        } else if is_pure && holds_block && (some_line_blank(rest) || !paragraph(rest)) {
            Written::Markdown(leading + emphasized(rest, marker, shown) + trailing)
        } else if fuses(rest, marker) {
            Written::Markdown(leading + rest + trailing)
        } else {
            Written::Markdown(leading + shown + rest + shown + trailing)
        }
    }
}

// ---------------------------------------------------------------------------
// The readers.
// ---------------------------------------------------------------------------

/// Whether the backslash `text` ends on is a hard break's own marker rather
/// than half of an escaped literal backslash.
///
/// Both look alike from the newline that follows, so only the run's length
/// tells them apart: escaping doubles every literal, and a break's own marker
/// is the one extra that leaves the run odd.
pub fn ends_in_break_marker(text: &[char]) -> (r: bool)
    ensures
        r == odd_backslash_run(text@),
{
    back_run_len(text, CharClass::Is('\\')) % 2 == 1
}

/// Whether `line` is [blank](https://spec.commonmark.org/0.31.2/#blank-lines):
/// empty, or holding nothing but spaces and tabs.
pub fn is_blank_line(line: &[char]) -> (r: bool)
    ensures
        r == blank(line@),
{
    run_len(line, CharClass::TabSpace) == line.len()
}

/// What `line` — one piece of a split on `\n` that keeps the `\n` — holds
/// without the line ending that terminates it.
pub fn line_text(line: &[char]) -> (r: &[char])
    ensures
        r@ == text_of_line(line@),
{
    let text = if line.len() > 0 && line[line.len() - 1] == '\n' {
        let t = slice_subrange(line, 0, line.len() - 1);
        assert(t@ =~= line@.drop_last());
        t
    } else {
        line
    };
    if text.len() > 0 && text[text.len() - 1] == '\r' {
        let t = slice_subrange(text, 0, text.len() - 1);
        assert(t@ =~= text@.drop_last());
        t
    } else {
        text
    }
}

/// Where the delimiter run of the code fence `line` opens lies in it, if it
/// opens one.
fn fence_run(line: &[char]) -> (r: Option<(usize, usize)>)
    ensures
        match r {
            Some((start, end)) => start + 3 <= end <= line@.len() && fence_opened(line@) == Some(
                line@.subrange(start as int, end as int),
            ),
            None => fence_opened(line@) is None,
        },
{
    let indent = run_len(line, CharClass::Space);
    proof {
        lemma_span(line@, CharClass::Space);
    }
    if indent >= 4 {
        return None;
    }
    let text = slice_subrange(line, indent, line.len());
    assert(text@ =~= line@.skip(indent as int));
    if text.len() == 0 || !(text[0] == '`' || text[0] == '~') {
        return None;
    }
    let symbol = text[0];
    let run = run_len(text, CharClass::Is(symbol));
    proof {
        lemma_span(text@, CharClass::Is(symbol));
    }
    if run < 3 {
        return None;
    }
    if symbol == '`' {
        let after = slice_subrange(text, run, text.len());
        assert(after@ =~= text@.skip(run as int));
        let k = run_len(after, CharClass::Not('`'));
        proof {
            lemma_span(after@, CharClass::Not('`'));
            if k < after@.len() {
                assert(after@[k as int] == '`');
                assert(after@.contains('`'));
            } else {
                assert forall|i: int| 0 <= i < after@.len() implies after@[i] != '`' by {
                    assert(in_class(after@[i], CharClass::Not('`')));
                }
                assert(!after@.contains('`'));
            }
        }
        if k < after.len() {
            return None;
        }
    }
    assert(line@.subrange(indent as int, indent + run) =~= text@.take(run as int));
    Some((indent, indent + run))
}

/// The delimiter run of the code fence `line` opens, if it opens one.
///
/// A backtick fence's [info string may hold no backtick](https://spec.commonmark.org/0.31.2/#info-string)
/// of its own, and that rule is what keeps a code span from being read as a
/// fence.
pub fn fence_delimiter(line: &str) -> (r: Option<&str>)
    ensures
        match r {
            Some(d) => fence_opened(line@) == Some(d@),
            None => fence_opened(line@) is None,
        },
{
    let text = crate::text::chars_of(line);
    match fence_run(text.as_slice()) {
        Some((start, end)) => Some(line.substring_char(start, end)),
        None => None,
    }
}

/// Whether `line` is the closing fence of the block `open` opened: the same
/// symbol, run at least as long, and nothing after it but whitespace.
pub fn closes_fence(line: &[char], open: &[char]) -> (r: bool)
    requires
        open@.len() > 0,
    ensures
        r == fence_closed(line@, open@),
{
    match fence_run(line) {
        Some((start, end)) => {
            let symbol = line[start];
            assert(fence_opened(line@).unwrap()[0] == symbol) by {
                assert(line@.subrange(start as int, end as int)[0] == line@[start as int]);
            }
            if symbol != open[0] || end - start < open.len() {
                return false;
            }
            let indent = run_len(line, CharClass::Space);
            proof {
                lemma_span(line@, CharClass::Space);
            }
            let text = slice_subrange(line, indent, line.len());
            assert(text@ =~= line@.skip(indent as int));
            let run = run_len(text, CharClass::Is(symbol));
            proof {
                lemma_span(text@, CharClass::Is(symbol));
            }
            let after = slice_subrange(text, run, text.len());
            assert(after@ =~= text@.skip(run as int));
            run_len(after, CharClass::TabSpace) == after.len()
        },
        None => false,
    }
}

/// `text` without the spaces and tabs at either end.
fn trim_tab_space_both(text: &[char]) -> (r: &[char])
    ensures
        r@ == tab_space_trimmed_both(text@),
{
    let start = run_len(text, CharClass::TabSpace);
    proof {
        lemma_span(text@, CharClass::TabSpace);
    }
    let t = slice_subrange(text, start, text.len());
    assert(t@ =~= text@.skip(start as int));
    let back = back_run_len(t, CharClass::TabSpace);
    proof {
        lemma_back_span(t@, CharClass::TabSpace);
    }
    let r = slice_subrange(t, 0, t.len() - back);
    assert(r@ =~= t@.take(t@.len() - back));
    r
}

/// Whether `line` is the [delimiter row](https://github.github.com/gfm/#tables-extension-)
/// that turns the rows around it into a table: pipes, dashes, and the colons
/// that set a column's alignment, with at least one dash among them.
pub fn is_table_delimiter_row(line: &[char]) -> (r: bool)
    ensures
        r == table_delimiter_row(line@),
{
    let text = trim_tab_space_both(line);
    if text.len() == 0 || text[0] != '|' {
        return false;
    }
    let mut has_dash = false;
    let mut i: usize = 0;
    while i < text.len()
        invariant
            i <= text@.len(),
            forall|j: int|
                0 <= j < i ==> (#[trigger] text@[j] == '|' || text@[j] == '-' || text@[j] == ':'
                    || text@[j] == ' ' || text@[j] == '\t'),
            has_dash == exists|j: int| 0 <= j < i && text@[j] == '-',
            text@ == tab_space_trimmed_both(line@),
            text@.len() > 0 && text@[0] == '|',
        decreases text@.len() - i,
    {
        let c = text[i];
        if !(c == '|' || c == '-' || c == ':' || c == ' ' || c == '\t') {
            assert(!(text@[i as int] == '|' || text@[i as int] == '-' || text@[i as int] == ':'
                || text@[i as int] == ' ' || text@[i as int] == '\t'));
            return false;
        }
        if c == '-' {
            has_dash = true;
        }
        i += 1;
    }
    proof {
        if has_dash {
            let j = choose|j: int| 0 <= j < i && text@[j] == '-';
            assert(text@.contains('-'));
        } else {
            assert(!text@.contains('-'));
        }
    }
    has_dash
}

/// Whether `text` opens an ordered list: [no more than nine](https://spec.commonmark.org/0.31.2/#ordered-list-marker)
/// digits, then a `.`, then the whitespace that separates the marker from the
/// item. A longer run of digits is ordinary text.
pub fn opens_ordered_list(text: &[char]) -> (r: bool)
    ensures
        r == ordered_list_opened(text@),
{
    let digits = run_len(text, CharClass::Digit);
    1 <= digits && digits <= 9 && digits + 1 < text.len() && text[digits] == '.' && (text[digits
        + 1] == ' ' || text[digits + 1] == '\t')
}

/// Whether the `<` that `text` opens with begins an HTML block rather than
/// something a paragraph can hold.
///
/// A tag names its element, so the list of block elements answers this
/// directly. An inline tag is not a block, and neither is an autolink, whose
/// `https` is no element at all.
pub fn opens_html_block(text: &[char]) -> (r: bool)
    requires
        text@.len() > 0,
    ensures
        r == tag_opens_block(text@),
{
    let after = slice_subrange(text, 1, text.len());
    assert(after@ =~= text@.drop_first());
    // A comment, a CDATA section, a declaration, or a processing instruction.
    if after.len() > 0 && (after[0] == '!' || after[0] == '?') {
        return true;
    }
    let name = if after.len() > 0 && after[0] == '/' {
        let n = slice_subrange(after, 1, after.len());
        assert(n@ =~= after@.drop_first());
        n
    } else {
        after
    };
    let end = run_len(name, CharClass::AsciiAlnum);
    proof {
        lemma_span(name@, CharClass::AsciiAlnum);
    }
    let mut lower: Vec<char> = Vec::new();
    let mut i: usize = 0;
    while i < end
        invariant
            i <= end <= name@.len(),
            lower@ =~= ascii_lowercase(name@.take(i as int)),
        decreases end - i,
    {
        lower.push(to_ascii_lower(name[i]));
        i += 1;
        assert(ascii_lowercase(name@.take(i as int)) =~= ascii_lowercase(
            name@.take(i - 1 as int),
        ).push(ascii_lower(name@[i - 1])));
    }
    is_block_element(lower.as_slice())
}

/// Whether every character of `text` is `symbol`, a space or a tab.
fn only_symbol_and_tab_space(text: &[char], symbol: char) -> (r: bool)
    ensures
        r == forall|i: int|
            0 <= i < text@.len() ==> (#[trigger] text@[i] == symbol || text@[i] == ' ' || text@[i]
                == '\t'),
{
    let mut i: usize = 0;
    while i < text.len()
        invariant
            i <= text@.len(),
            forall|j: int|
                0 <= j < i ==> (#[trigger] text@[j] == symbol || text@[j] == ' ' || text@[j]
                    == '\t'),
        decreases text@.len() - i,
    {
        let c = text[i];
        if !(c == symbol || c == ' ' || c == '\t') {
            assert(!(text@[i as int] == symbol || text@[i as int] == ' ' || text@[i as int]
                == '\t'));
            return false;
        }
        i += 1;
    }
    true
}

/// Whether `line` is ordinary text rather than the opening of some other block
/// or the underline of a Setext heading.
///
/// `line` is Markdown already written, so the question is which spellings are
/// *emitted* for a block: an ATX heading wants a space after its `#` run, an
/// ordered list marker a `.`, a bullet the whitespace after it. `is_first`
/// tells a Setext underline from a line of dashes that has nothing above it.
pub fn is_paragraph_line(line: &[char], is_first: bool) -> (r: bool)
    ensures
        r == paragraph_line(line@, is_first),
{
    let indent = run_len(line, CharClass::Space);
    proof {
        lemma_span(line@, CharClass::Space);
    }
    let text = slice_subrange(line, indent, line.len());
    assert(text@ =~= line@.skip(indent as int));
    // Four columns of indent open an indented code block, and a tab is four.
    if indent >= 4 || (text.len() > 0 && text[0] == '\t') {
        return false;
    }
    if text.len() == 0 {
        return true;
    }
    let first = text[0];
    // A block quote.
    if first == '>' {
        return false;
    }
    // An ATX heading is a run of one to six `#` and then a space.
    let hashes = run_len(text, CharClass::Is('#'));
    if first == '#' && hashes <= 6 && hashes < text.len() && text[hashes] == ' ' {
        return false;
    }
    if first == '<' && opens_html_block(text) {
        return false;
    }
    // A run of one symbol and nothing else is a thematic break, or — for `-`
    // and `=` — a Setext underline beneath a line of the same paragraph.
    if (first == '*' || first == '-' || first == '_' || first == '=')
        && only_symbol_and_tab_space(text, first) && !(is_first && (first == '-' || first
        == '=')) {
        return false;
    }
    // A bullet list marker is the bullet and the whitespace after it.
    if (first == '*' || first == '-' || first == '+') && text.len() > 1 && (text[1] == ' '
        || text[1] == '\t') {
        return false;
    }
    fence_run(text).is_none() && !opens_ordered_list(text)
}

/// Whether every line of `paragraph` is ordinary text, so that the whole of it
/// is the one kind of block a pair of emphasis markers can wrap.
///
/// A table's rows are ordinary text but for the pipes, and only the delimiter
/// row under the header says that the pipes are a table's; so every line but
/// the first is tested for being one.
pub fn is_paragraph(paragraph: &[char]) -> (r: bool)
    ensures
        r == crate::element_handler::emphasis::paragraph(paragraph@),
{
    let ghost ls = lines(paragraph@);
    let mut pos: usize = 0;
    let mut index: usize = 0;
    assert(paragraph@.skip(0) =~= paragraph@);
    assert(ls.take(0) + ls =~= ls);
    while pos < paragraph.len()
        invariant
            ls == lines(paragraph@),
            index <= pos <= paragraph@.len(),
            index <= ls.len(),
            ls == ls.take(index as int) + lines(paragraph@.skip(pos as int)),
            forall|i: int| 0 <= i < index ==> paragraph_line(#[trigger] ls[i], i == 0),
            forall|i: int| 1 <= i < index ==> !table_delimiter_row(#[trigger] ls[i]),
        decreases paragraph@.len() - pos,
    {
        let (line, next) = line_at(paragraph, pos);
        assert(ls[index as int] == line@) by {
            let rest = lines(paragraph@.skip(pos as int));
            assert(rest[0] == line@);
            assert((ls.take(index as int) + rest)[index as int] == rest[0]);
        }
        if !is_paragraph_line(line, index == 0) {
            return false;
        }
        if index >= 1 && is_table_delimiter_row(line) {
            return false;
        }
        proof {
            assert(ls.take(index + 1 as int) =~= ls.take(index as int).push(line@));
            assert(ls =~= ls.take(index + 1 as int) + lines(paragraph@.skip(next as int)));
        }
        index += 1;
        pos = next;
    }
    proof {
        assert(paragraph@.skip(pos as int) =~= Seq::<char>::empty());
        assert(lines(Seq::<char>::empty()) =~= Seq::<Seq<char>>::empty());
        assert(ls.take(index as int) =~= ls);
    }
    true
}

/// Whether a marker written against `rest` would join a delimiter run already
/// there rather than open one of its own.
///
/// An inline child sitting at the paragraph's edge has already written
/// markers of its own there, so a marker put beside them lands in the same
/// run and both change meaning. An escaped marker is literal text and no run
/// at all; only the trailing edge can hide one.
pub fn fuses_with_marker(rest: &[char], marker: &[char]) -> (r: bool)
    requires
        marker@.len() > 0,
    ensures
        r == fuses(rest@, marker@),
{
    let symbol = marker[0];
    let ends_in_run = rest.len() > 0 && rest[rest.len() - 1] == symbol && {
        let before = slice_subrange(rest, 0, rest.len() - 1);
        assert(before@ =~= rest@.drop_last());
        !ends_in_break_marker(before)
    };
    (rest.len() > 0 && rest[0] == symbol) || ends_in_run
}

/// Whether `w` holds a blank line: two line endings in a row.
fn has_blank_line(w: &[char]) -> (r: bool)
    ensures
        r == holds_blank_line(w@),
{
    let mut i: usize = 0;
    while i < w.len() && i + 1 < w.len()
        invariant
            forall|j: int| 0 <= j < i && j < w@.len() - 1 ==> !(#[trigger] w@[j] == '\n' && w@[j + 1] == '\n'),
        decreases w@.len() - i,
    {
        if w[i] == '\n' && w[i + 1] == '\n' {
            return true;
        }
        i += 1;
    }
    false
}

/// How many characters of `content`'s start have to be written outside the
/// opening marker; see [`leading_hoist`].
pub fn leading_hoist_chars(content: &[char], is_pure: bool) -> (n: usize)
    ensures
        n == leading_hoisted(content@, is_pure),
        n <= content@.len(),
{
    let whitespace_len = run_len(content, CharClass::Whitespace);
    proof {
        lemma_span(content@, CharClass::Whitespace);
    }
    if !is_pure {
        let whitespace = slice_subrange(content, 0, whitespace_len);
        assert(whitespace@ =~= content@.take(whitespace_len as int));
        if has_blank_line(whitespace) {
            return whitespace_len;
        }
        let n = run_len(whitespace, CharClass::Not('\n'));
        proof {
            lemma_span(whitespace@, CharClass::Not('\n'));
        }
        return n;
    }
    // Take any run of hard breaks along with the whitespace. Only the
    // backslash spelling needs looking for: the two-space one is whitespace
    // already.
    let mut len = whitespace_len;
    while len < content.len() && len + 1 < content.len() && content[len] == '\\' && content[len + 1] == '\n'
        invariant
            len <= content@.len(),
            hard_breaks_end(content@, whitespace_len as nat) == hard_breaks_end(content@, len as nat),
        decreases content@.len() - len,
    {
        let after = slice_subrange(content, len + 1, content.len());
        assert(after@ =~= content@.skip(len + 1 as int));
        let n = run_len(after, CharClass::Whitespace);
        proof {
            lemma_span(after@, CharClass::Whitespace);
        }
        len = len + 1 + n;
    }
    len
}

/// Whether the line ending at `end` in `content` is that of a backslash hard
/// break.
fn hard_break_ends_at(content: &[char], end: usize) -> (r: bool)
    requires
        end <= content@.len(),
    ensures
        r == (1 <= end < content@.len() && content@[end as int] == '\n' && odd_backslash_run(
            content@.take(end as int),
        )),
{
    if 1 <= end && end < content.len() && content[end] == '\n' {
        let before = slice_subrange(content, 0, end);
        assert(before@ =~= content@.take(end as int));
        ends_in_break_marker(before)
    } else {
        false
    }
}

/// How many characters of `content`'s end have to be written outside the
/// closing marker; see [`trailing_hoist`].
pub fn trailing_hoist_chars(content: &[char], is_pure: bool) -> (n: usize)
    ensures
        n == trailing_hoisted(content@, is_pure),
        n <= content@.len(),
{
    let back = back_run_len(content, CharClass::Whitespace);
    proof {
        lemma_back_span(content@, CharClass::Whitespace);
    }
    let trimmed_len = content.len() - back;
    if !is_pure {
        let whitespace = slice_subrange(content, trimmed_len, content.len());
        assert(whitespace@ =~= content@.skip(trimmed_len as int));
        if has_blank_line(whitespace) {
            return whitespace.len();
        }
        let n = back_run_len(whitespace, CharClass::Not('\n'));
        proof {
            lemma_back_span(whitespace@, CharClass::Not('\n'));
        }
        return n;
    }
    let mut end = trimmed_len;
    while hard_break_ends_at(content, end)
        invariant
            end <= content@.len(),
            hard_breaks_start(content@, trimmed_len as nat) == hard_breaks_start(content@, end as nat),
        decreases end,
    {
        let before = slice_subrange(content, 0, end - 1);
        assert(before@ =~= content@.take(end - 1));
        let b = back_run_len(before, CharClass::Whitespace);
        proof {
            lemma_back_span(before@, CharClass::Whitespace);
        }
        end = before.len() - b;
    }
    content.len() - end
}

/// How much of `content`'s start, in bytes, has to be written outside the
/// opening marker.
///
/// Leading whitespace always moves out, since a marker against whitespace does
/// not open emphasis. A leading hard break moves too, but only in pure mode:
/// the break renders the same on either side of the markers, while in faithful
/// mode moving it would move the `<br>` it came from out of the element. A
/// blank line is block separation rather than a break, so it moves out in both
/// modes.
///
/// A newline here means `\n` and nothing else: a `\r` is a literal character
/// carried through verbatim, not a line ending.
pub fn leading_hoist(content: &str, is_pure: bool) -> (n: usize)
    ensures
        n == utf8_len(content@.take(leading_hoisted(content@, is_pure) as int)),
{
    let text = chars_of(content);
    let k = leading_hoist_chars(text.as_slice(), is_pure);
    str_prefix_len(content, text.as_slice(), k)
}

/// How much of `content`'s end, in bytes, has to be written outside the
/// closing marker, the mirror of [`leading_hoist`].
pub fn trailing_hoist(content: &str, is_pure: bool) -> (n: usize)
    ensures
        n == utf8_len(content@.skip(content@.len() - trailing_hoisted(content@, is_pure))),
{
    let text = chars_of(content);
    let k = trailing_hoist_chars(text.as_slice(), is_pure);
    let total = content.as_bytes().len();
    let before = str_prefix_len(content, text.as_slice(), text.len() - k);
    proof {
        let cut = content@.len() - k;
        assert(content@ =~= content@.take(cut) + content@.skip(cut));
        lemma_encode_utf8_concat(content@.take(cut), content@.skip(cut));
    }
    total - before
}

/// Writes `paragraph` into `result`, with `marker` around it if it can carry a
/// pair.
///
/// The hoists run again here because these edges are a paragraph's edges too,
/// and a marker against whitespace — or against the backslash of a hard break
/// — does not open or close emphasis.
pub fn push_paragraph(result: &mut Vec<char>, paragraph: &[char], marker: &[char])
    requires
        marker@.len() > 0,
    ensures
        final(result)@ == old(result)@ + paragraph_written(paragraph@, marker@, marker@),
{
    if !is_paragraph(paragraph) {
        append_chars(result, paragraph);
        return;
    }
    let lead = leading_hoist_chars(paragraph, true);
    let inner = slice_subrange(paragraph, lead, paragraph.len());
    assert(inner@ =~= paragraph@.skip(lead as int));
    let trail = trailing_hoist_chars(inner, true);
    let rest = slice_subrange(inner, 0, inner.len() - trail);
    assert(rest@ =~= inner@.take(inner@.len() - trail));
    if rest.len() == 0 || fuses_with_marker(rest, marker) {
        append_chars(result, paragraph);
        return;
    }
    let leading = slice_subrange(paragraph, 0, lead);
    assert(leading@ =~= paragraph@.take(lead as int));
    let trailing = slice_subrange(inner, inner.len() - trail, inner.len());
    assert(trailing@ =~= inner@.skip(inner@.len() - trail));
    let ghost before = result@;
    append_chars(result, leading);
    append_chars(result, marker);
    append_chars(result, rest);
    append_chars(result, marker);
    append_chars(result, trailing);
    assert(result@ =~= before + (leading@ + marker@ + rest@ + marker@ + trailing@));
}

/// The delimiter run of the code fence `line` opens, if it opens one, as a
/// part of `line`.
fn fence_delimiter_chars(line: &[char]) -> (r: Option<&[char]>)
    ensures
        opt_view(r) == fence_opened(line@),
        r matches Some(d) ==> d@.len() > 0,
{
    match fence_run(line) {
        Some((start, end)) => Some(slice_subrange(line, start, end)),
        None => None,
    }
}

/// [`emphasize_paragraphs`] on the characters of the content.
pub fn emphasize_paragraphs_chars(content: &[char], marker: &[char]) -> (r: Vec<char>)
    requires
        marker@.len() > 0,
    ensures
        r@ == emphasized(content@, marker@, marker@),
{
    let mut result: Vec<char> = Vec::new();
    let mut paragraph_start: usize = 0;
    let mut offset: usize = 0;
    // The delimiter of the code fence currently open, if any. A blank line
    // inside a fence is part of the code and ends no paragraph.
    let mut fence: Option<&[char]> = None;
    assert(content@.skip(0) =~= content@);
    assert(content@.subrange(0, 0) =~= Seq::<char>::empty());
    while offset < content.len()
        invariant
            paragraph_start <= offset <= content@.len(),
            marker@.len() > 0,
            fence matches Some(f) ==> f@.len() > 0,
            result@ + paragraphs_written(
                inclusive_lines(content@.skip(offset as int)),
                content@.subrange(paragraph_start as int, offset as int),
                opt_view(fence),
                marker@,
                marker@,
            ) == emphasized(content@, marker@, marker@),
        decreases content@.len() - offset,
    {
        let line_start = offset;
        let end = inclusive_line_end(content, offset);
        let line = slice_subrange(content, offset, end);
        let ghost par = content@.subrange(paragraph_start as int, line_start as int);
        let ghost rest_lines = inclusive_lines(content@.skip(end as int));
        let ghost ls = inclusive_lines(content@.skip(line_start as int));
        let ghost old_fence = opt_view(fence);
        let ghost total = result@ + paragraphs_written(ls, par, old_fence, marker@, marker@);
        assert(line@ =~= content@.subrange(line_start as int, end as int));
        assert(ls[0] == line@);
        assert(ls.drop_first() =~= rest_lines);
        assert(content@.subrange(paragraph_start as int, end as int) =~= par + line@);
        offset = end;
        let text = line_text(line);
        match fence {
            Some(open) => {
                if closes_fence(text, open) {
                    fence = None;
                }
                assert(paragraphs_written(ls, par, old_fence, marker@, marker@)
                    == paragraphs_written(rest_lines, par + line@, opt_view(fence), marker@, marker@));
            },
            None => {
                if is_blank_line(text) {
                    let paragraph = slice_subrange(content, paragraph_start, line_start);
                    let ghost before = result@;
                    push_paragraph(&mut result, paragraph, marker);
                    append_chars(&mut result, line);
                    assert(result@ =~= before + (paragraph_written(par, marker@, marker@) + line@));
                    assert(paragraphs_written(ls, par, old_fence, marker@, marker@)
                        == paragraph_written(par, marker@, marker@) + line@ + paragraphs_written(rest_lines, seq![], None, marker@, marker@));
                    paragraph_start = offset;
                    assert(content@.subrange(paragraph_start as int, offset as int) =~= Seq::<char>::empty());
                } else {
                    fence = fence_delimiter_chars(text);
                    assert(paragraphs_written(ls, par, old_fence, marker@, marker@)
                        == paragraphs_written(rest_lines, par + line@, opt_view(fence), marker@, marker@));
                }
            },
        }
    }
    let paragraph = slice_subrange(content, paragraph_start, content.len());
    assert(content@.skip(offset as int) =~= Seq::<char>::empty());
    assert(inclusive_lines(Seq::<char>::empty()) =~= Seq::<Seq<char>>::empty());
    push_paragraph(&mut result, paragraph, marker);
    result
}

/// Writes a pair of `marker`s around each paragraph of `content` rather than
/// one pair around the whole of it.
///
/// A blank line ends a paragraph, and a delimiter run is read within one, so a
/// pair of markers straddling a blank line is not emphasis at all. Emphasizing
/// each paragraph in turn says what the element said in the only way Markdown
/// can. Only a paragraph can carry the markers: every other block spells its
/// meaning with the characters at a line's edge, so those blocks go out
/// unmarked, which loses the emphasis on them alone and keeps the block.
pub fn emphasize_paragraphs(content: &str, marker: &str) -> (r: String)
    requires
        marker@.len() > 0,
    ensures
        r@ == emphasized(content@, marker@, marker@),
{
    let text = chars_of(content);
    let marker_chars = chars_of(marker);
    let written = emphasize_paragraphs_chars(text.as_slice(), marker_chars.as_slice());
    string_of(written.as_slice())
}

/// Whether a marker against punctuation may still flank, given the character
/// on its other side. Anything but an alphanumeric will do — whitespace and
/// punctuation both allow it, and so does the line or block edge a `None`
/// stands for.
pub fn flanking_allows(adjacent: Option<char>) -> (r: bool)
    ensures
        r == allows_flanking(adjacent),
{
    match adjacent {
        Some(c) => !is_alphanumeric(c),
        None => true,
    }
}

/// Whether the markers this element would be written with open and close
/// emphasis where they land.
///
/// A delimiter run opens emphasis only if it is left-flanking: not followed
/// by whitespace, and either not followed by punctuation or else itself
/// preceded by whitespace or punctuation — mirror-image for closing. `rest`
/// is what the markers would wrap; a non-empty `leading` or `trailing` is
/// whitespace that moved out, so the markers sit against whitespace on the
/// outside. Only where neither settles it is the tree around the element
/// (`ancestors`) asked for the character there.
pub fn markers_flank(
    ancestors: &[AncestorFrame],
    rest: &[char],
    leading: &[char],
    trailing: &[char],
) -> (r: bool)
    requires
        rest@.len() > 0,
    ensures
        r == flanked(
            rest@,
            leading@,
            trailing@,
            adjacent_from(ancestors@, Direction::Back),
            adjacent_from(ancestors@, Direction::Forward),
        ),
{
    let first = rest[0];
    let last = rest[rest.len() - 1];
    let opens = !is_whitespace(first) && (is_alphanumeric(first) || leading.len() > 0
        || flanking_allows(preceding_char(ancestors)));
    let closes = !is_whitespace(last) && (is_alphanumeric(last) || trailing.len() > 0
        || flanking_allows(following_char(ancestors)));
    opens && closes
}

/// Whether some line of `text` is blank.
pub fn any_blank_line(text: &[char]) -> (r: bool)
    ensures
        r == some_line_blank(text@),
{
    let ghost ls = lines(text@);
    let mut pos: usize = 0;
    let mut index: usize = 0;
    assert(text@.skip(0) =~= text@);
    assert(ls.take(0) + ls =~= ls);
    while pos < text.len()
        invariant
            ls == lines(text@),
            index <= pos <= text@.len(),
            index <= ls.len(),
            ls == ls.take(index as int) + lines(text@.skip(pos as int)),
            forall|i: int| 0 <= i < index ==> !blank(#[trigger] ls[i]),
        decreases text@.len() - pos,
    {
        let (line, next) = line_at(text, pos);
        assert(ls[index as int] == line@) by {
            let rest = lines(text@.skip(pos as int));
            assert(rest[0] == line@);
            assert((ls.take(index as int) + rest)[index as int] == rest[0]);
        }
        if is_blank_line(line) {
            return true;
        }
        proof {
            assert(ls.take(index + 1 as int) =~= ls.take(index as int).push(line@));
            assert(ls =~= ls.take(index + 1 as int) + lines(text@.skip(next as int)));
        }
        index += 1;
        pos = next;
    }
    proof {
        assert(text@.skip(pos as int) =~= Seq::<char>::empty());
        assert(lines(Seq::<char>::empty()) =~= Seq::<Seq<char>>::empty());
        assert(ls.take(index as int) =~= ls);
    }
    false
}

/// What an `<em>`, `<strong>` or the like writes, given the Markdown its
/// children were written as (`content`), its `marker`, whether the
/// translation is pure rather than faithful, the element itself and the chain
/// of its ancestors.
///
/// Whitespace moves out of the markers, since a marker against whitespace does
/// not open or close emphasis. Where nothing is left for the markers to wrap,
/// none are written, and only a hard break that moved out has to be. Markers
/// that do not flank are literal text rather than emphasis, so in faithful
/// mode the element survives only as HTML. Both markers also have to land in
/// the same paragraph: pure mode writes an element that really holds a block
/// paragraph by paragraph instead.
pub fn emphasis_handler(
    content: &str,
    marker: &str,
    is_pure: bool,
    element: &DomNode,
    ancestors: &[AncestorFrame],
) -> (r: HandlerOutcome)
    requires
        marker@.len() > 0,
    ensures
        written(r) == emphasis_written(
            content@,
            marker@,
            marker@,
            is_pure,
            holds_block(*element),
            adjacent_from(ancestors@, Direction::Back),
            adjacent_from(ancestors@, Direction::Forward),
        ),
{
    let text = chars_of(content);
    let marker_chars = chars_of(marker);
    let content = text.as_slice();
    if content.len() == 0 {
        return HandlerOutcome::Skip;
    }
    let lead = leading_hoist_chars(content, is_pure);
    let leading = slice_subrange(content, 0, lead);
    let inner = slice_subrange(content, lead, content.len());
    assert(leading@ =~= content@.take(lead as int));
    assert(inner@ =~= content@.skip(lead as int));
    let trail = trailing_hoist_chars(inner, is_pure);
    let rest = slice_subrange(inner, 0, inner.len() - trail);
    let trailing = slice_subrange(inner, inner.len() - trail, inner.len());
    assert(rest@ =~= inner@.take(inner@.len() - trail));
    assert(trailing@ =~= inner@.skip(inner@.len() - trail));

    if rest.len() == 0 {
        // Nothing is left for the markers to wrap, so none are written. A hard
        // break that moved out still has to be: it was the element's whole
        // content. Plain whitespace goes.
        if contains_char(leading, '\n') || contains_char(trailing, '\n') {
            let mut out: Vec<char> = Vec::new();
            append_chars(&mut out, leading);
            append_chars(&mut out, trailing);
            return HandlerOutcome::Markdown(string_of(out.as_slice()));
        }
        return HandlerOutcome::Skip;
    }

    // Markers that do not flank are literal text rather than emphasis, so the
    // element survives only as HTML. So do markers straddling a blank line:
    // a delimiter run is read within one paragraph, so both would be literal.
    // Pure mode has no such fallback; the hoist above is what keeps a marker
    // off a break there.
    if !is_pure && (!markers_flank(ancestors, rest, leading, trailing) || any_blank_line(rest)) {
        return HandlerOutcome::Serialize;
    }

    // Only an element that really holds a block goes paragraph by paragraph:
    // content that merely reads like a block is text, and the markers are
    // what keep it text.
    if is_pure && holds_block_element(element) && (any_blank_line(rest) || !is_paragraph(rest)) {
        let mut out: Vec<char> = Vec::new();
        append_chars(&mut out, leading);
        let paragraphs = emphasize_paragraphs_chars(rest, marker_chars.as_slice());
        append_chars(&mut out, paragraphs.as_slice());
        append_chars(&mut out, trailing);
        return HandlerOutcome::Markdown(string_of(out.as_slice()));
    }

    // A marker against a delimiter run already at the content's edge — the
    // markers a nested emphasis wrote — would join that run and change what
    // both mean, so the content goes out unmarked.
    if fuses_with_marker(rest, marker_chars.as_slice()) {
        let mut out: Vec<char> = Vec::new();
        append_chars(&mut out, leading);
        append_chars(&mut out, rest);
        append_chars(&mut out, trailing);
        return HandlerOutcome::Markdown(string_of(out.as_slice()));
    }

    let mut out: Vec<char> = Vec::new();
    append_chars(&mut out, leading);
    append_chars(&mut out, marker_chars.as_slice());
    append_chars(&mut out, rest);
    append_chars(&mut out, marker_chars.as_slice());
    append_chars(&mut out, trailing);
    HandlerOutcome::Markdown(string_of(out.as_slice()))
}

// ---------------------------------------------------------------------------
// Laws.
// ---------------------------------------------------------------------------

/// The hoisted hard breaks end within the text, no earlier than they start.
proof fn lemma_hard_breaks_end_within(s: Seq<char>, len: nat)
    requires
        len <= s.len(),
    ensures
        len <= hard_breaks_end(s, len) <= s.len(),
    decreases s.len() - len,
{
    if len + 1 < s.len() && s[len as int] == '\\' && s[len + 1 as int] == '\n' {
        let after = s.skip(len + 1 as int);
        lemma_span(after, CharClass::Whitespace);
        lemma_hard_breaks_end_within(s, len + 1 + span(after, CharClass::Whitespace));
    }
}

/// The hoisted hard breaks at the end start no later than the point given.
proof fn lemma_hard_breaks_start_within(s: Seq<char>, end: nat)
    ensures
        hard_breaks_start(s, end) <= end,
    decreases end,
{
    if 1 <= end < s.len() && s[end as int] == '\n' && odd_backslash_run(s.take(end as int)) {
        let before = s.take(end - 1);
        lemma_back_span(before, CharClass::Whitespace);
        lemma_hard_breaks_start_within(
            s,
            (before.len() - back_span(before, CharClass::Whitespace)) as nat,
        );
    }
}

/// What the hoists move out of a text lies within it.
pub proof fn lemma_hoists_within(s: Seq<char>, is_pure: bool)
    ensures
        leading_hoisted(s, is_pure) <= s.len(),
        trailing_hoisted(s, is_pure) <= s.len(),
{
    lemma_span(s, CharClass::Whitespace);
    lemma_back_span(s, CharClass::Whitespace);
    let ws = span(s, CharClass::Whitespace);
    lemma_span(s.take(ws as int), CharClass::Not('\n'));
    lemma_hard_breaks_end_within(s, ws);
    let trimmed = (s.len() - back_span(s, CharClass::Whitespace)) as nat;
    lemma_back_span(s.skip(trimmed as int), CharClass::Not('\n'));
    lemma_hard_breaks_start_within(s, trimmed);
}

/// In faithful mode the hoists move whitespace only, and a line ending only
/// together with a blank line: a hard break stays inside the element.
pub proof fn lemma_faithful_hoists_move_whitespace(s: Seq<char>)
    ensures
        ({
            let moved = s.take(leading_hoisted(s, false) as int);
            &&& forall|i: int| 0 <= i < moved.len() ==> is_unicode_whitespace(#[trigger] moved[i])
            &&& moved.contains('\n') ==> holds_blank_line(moved)
        }),
        ({
            let moved = s.skip(s.len() - trailing_hoisted(s, false));
            &&& forall|i: int| 0 <= i < moved.len() ==> is_unicode_whitespace(#[trigger] moved[i])
            &&& moved.contains('\n') ==> holds_blank_line(moved)
        }),
{
    lemma_span(s, CharClass::Whitespace);
    lemma_back_span(s, CharClass::Whitespace);
    let ws = span(s, CharClass::Whitespace);
    let w = s.take(ws as int);
    lemma_span(w, CharClass::Not('\n'));
    let moved = s.take(leading_hoisted(s, false) as int);
    assert forall|i: int| 0 <= i < moved.len() implies is_unicode_whitespace(#[trigger] moved[i]) by {
        assert(in_class(s[i], CharClass::Whitespace));
    }
    if !holds_blank_line(w) {
        assert(moved =~= w.take(span(w, CharClass::Not('\n')) as int));
        assert forall|i: int| 0 <= i < moved.len() implies moved[i] != '\n' by {
            assert(in_class(w[i], CharClass::Not('\n')));
        }
    } else {
        assert(moved =~= w);
    }
    let trimmed = (s.len() - back_span(s, CharClass::Whitespace)) as nat;
    let tw = s.skip(trimmed as int);
    lemma_back_span(tw, CharClass::Not('\n'));
    let tmoved = s.skip(s.len() - trailing_hoisted(s, false));
    assert forall|i: int| 0 <= i < tmoved.len() implies is_unicode_whitespace(#[trigger] tmoved[i]) by {
        assert(in_class(s[s.len() - tmoved.len() + i], CharClass::Whitespace));
    }
    if !holds_blank_line(tw) {
        let k = back_span(tw, CharClass::Not('\n'));
        assert(tmoved =~= tw.skip(tw.len() - k));
        assert forall|i: int| 0 <= i < tmoved.len() implies tmoved[i] != '\n' by {
            assert(in_class(tw[tw.len() - k + i], CharClass::Not('\n')));
        }
    } else {
        assert(tmoved =~= tw);
    }
}

/// A pair of backslashes is an escaped literal and changes nothing; a single
/// one turns a break's marker into half of a pair and back.
pub proof fn lemma_break_marker_parity(text: Seq<char>)
    ensures
        odd_backslash_run(text + seq!['\\', '\\']) == odd_backslash_run(text),
        odd_backslash_run(text + seq!['\\']) == !odd_backslash_run(text),
{
    let one = text + seq!['\\'];
    let two = text + seq!['\\', '\\'];
    assert(one.drop_last() =~= text);
    assert(two.drop_last() =~= one);
    assert(back_span(one, CharClass::Is('\\')) == 1 + back_span(text, CharClass::Is('\\')));
    assert(back_span(two, CharClass::Is('\\')) == 1 + back_span(one, CharClass::Is('\\')));
}

/// A block that is not a paragraph goes out as it came in: every other
/// block spells its meaning with the characters at a line's edge, where a
/// marker would have to go.
pub proof fn lemma_blocks_go_out_unmarked(p: Seq<char>, marker: Seq<char>, shown: Seq<char>)
    requires
        !paragraph(p),
    ensures
        paragraph_written(p, marker, shown) == p,
{
}

/// With no blank line among the pieces still to come, the rest of the text
/// joins the paragraph read so far, and the whole is written as that one
/// paragraph.
proof fn lemma_no_blank_line_one_paragraph(
    ls: Seq<Seq<char>>,
    par: Seq<char>,
    fence: Option<Seq<char>>,
    marker: Seq<char>,
    shown: Seq<char>,
)
    requires
        forall|i: int| 0 <= i < ls.len() ==> !blank(text_of_line(#[trigger] ls[i])),
    ensures
        paragraphs_written(ls, par, fence, marker, shown) == paragraph_written(
            par + joined(ls),
            marker,
            shown,
        ),
    decreases ls.len(),
{
    if ls.len() == 0 {
        assert(par + joined(ls) =~= par);
    } else {
        let line = ls[0];
        let text = text_of_line(line);
        assert forall|i: int| 0 <= i < ls.drop_first().len() implies !blank(
            text_of_line(#[trigger] ls.drop_first()[i]),
        ) by {
            assert(ls.drop_first()[i] == ls[i + 1]);
        }
        assert(!blank(text_of_line(ls[0])));
        let next = match fence {
            Some(open) => if fence_closed(text, open) {
                None
            } else {
                fence
            },
            None => fence_opened(text),
        };
        lemma_no_blank_line_one_paragraph(ls.drop_first(), par + line, next, marker, shown);
        assert((par + line) + joined(ls.drop_first()) =~= par + joined(ls));
    }
}

/// Content with no blank line is one paragraph: it is written just as that
/// paragraph alone would be, with a pair of markers around it where it can
/// carry them.
pub proof fn lemma_one_paragraph_without_a_blank_line(
    content: Seq<char>,
    marker: Seq<char>,
    shown: Seq<char>,
)
    requires
        forall|i: int|
            0 <= i < inclusive_lines(content).len() ==> !blank(
                text_of_line(#[trigger] inclusive_lines(content)[i]),
            ),
    ensures
        emphasized(content, marker, shown) == paragraph_written(content, marker, shown),
{
    lemma_no_blank_line_one_paragraph(inclusive_lines(content), seq![], None, marker, shown);
    lemma_inclusive_lines_joined(content);
    assert(Seq::<char>::empty() + joined(inclusive_lines(content)) =~= content);
}

/// Written with nothing where the markers go, a paragraph is itself.
proof fn lemma_paragraph_written_without_markers(p: Seq<char>, marker: Seq<char>)
    ensures
        paragraph_written(p, marker, seq![]) == p,
{
    if let Some((lead, trail)) = paragraph_cut(p, marker) {
        lemma_hoists_within(p, true);
        let inner = p.skip(lead as int);
        lemma_hoists_within(inner, true);
        let e = Seq::<char>::empty();
        assert(p.take(lead as int) + e + inner.take(inner.len() - trail) + e + inner.skip(
            inner.len() - trail,
        ) =~= p);
    }
}

/// Written with nothing where the markers go, the rest of the text is the
/// paragraph read so far and the pieces still to come.
proof fn lemma_paragraphs_written_without_markers(
    ls: Seq<Seq<char>>,
    par: Seq<char>,
    fence: Option<Seq<char>>,
    marker: Seq<char>,
)
    ensures
        paragraphs_written(ls, par, fence, marker, seq![]) == par + joined(ls),
    decreases ls.len(),
{
    lemma_paragraph_written_without_markers(par, marker);
    if ls.len() == 0 {
        assert(par + joined(ls) =~= par);
    } else {
        let line = ls[0];
        let text = text_of_line(line);
        match fence {
            Some(open) => {
                let next = if fence_closed(text, open) {
                    None
                } else {
                    fence
                };
                lemma_paragraphs_written_without_markers(ls.drop_first(), par + line, next, marker);
                assert((par + line) + joined(ls.drop_first()) =~= par + joined(ls));
            },
            None => {
                if blank(text) {
                    lemma_paragraphs_written_without_markers(ls.drop_first(), seq![], None, marker);
                    assert(par + line + (Seq::<char>::empty() + joined(ls.drop_first()))
                        =~= par + joined(ls));
                } else {
                    lemma_paragraphs_written_without_markers(
                        ls.drop_first(),
                        par + line,
                        fence_opened(text),
                        marker,
                    );
                    assert((par + line) + joined(ls.drop_first()) =~= par + joined(ls));
                }
            },
        }
    }
}

/// The markers are all that is added: written with nothing where each marker
/// goes, the paragraphs give back the content, every blank line and block
/// between them untouched.
pub proof fn lemma_emphasize_paragraphs_adds_only_markers(content: Seq<char>, marker: Seq<char>)
    ensures
        emphasized(content, marker, seq![]) == content,
{
    lemma_paragraphs_written_without_markers(inclusive_lines(content), seq![], None, marker);
    lemma_inclusive_lines_joined(content);
    assert(Seq::<char>::empty() + joined(inclusive_lines(content)) =~= content);
}

/// Pure mode has no HTML to fall back on: it always writes Markdown or
/// nothing.
pub proof fn lemma_pure_mode_never_serializes(
    content: Seq<char>,
    marker: Seq<char>,
    holds_block: bool,
    before: Option<char>,
    after: Option<char>,
)
    ensures
        !(emphasis_written(content, marker, marker, true, holds_block, before, after) is Html),
{
}

/// A run of hard breaks taken by the leading hoist starts with the `\n` of
/// its first break.
proof fn lemma_hard_breaks_end_takes_a_line_ending(s: Seq<char>, len: nat)
    requires
        len <= s.len(),
    ensures
        hard_breaks_end(s, len) > len ==> len + 1 < hard_breaks_end(s, len) && s[len + 1 as int] == '\n',
{
    if len + 1 < s.len() && s[len as int] == '\\' && s[len + 1 as int] == '\n' {
        let after = s.skip(len + 1 as int);
        lemma_span(after, CharClass::Whitespace);
        lemma_hard_breaks_end_within(s, len + 1 + span(after, CharClass::Whitespace));
        assert(in_class(after[0], CharClass::Whitespace));
    }
}

/// A run of hard breaks taken by the trailing hoist ends with the `\n` of its
/// last break.
proof fn lemma_hard_breaks_start_takes_a_line_ending(s: Seq<char>, end: nat)
    ensures
        hard_breaks_start(s, end) < end ==> end < s.len() && s[end as int] == '\n',
{
    if 1 <= end < s.len() && s[end as int] == '\n' && odd_backslash_run(s.take(end as int)) {
        let before = s.take(end - 1);
        lemma_back_span(before, CharClass::Whitespace);
        lemma_hard_breaks_start_within(s, (before.len() - back_span(before, CharClass::Whitespace)) as nat);
    }
}

/// The markers are all that emphasis adds. Written with nothing where each
/// marker goes, the Markdown written for an element is its content; it is
/// Markdown, HTML or nothing just as it is with the markers; and where nothing
/// is written, the content was whitespace.
pub proof fn lemma_emphasis_adds_only_markers(
    content: Seq<char>,
    marker: Seq<char>,
    is_pure: bool,
    holds_block: bool,
    before: Option<char>,
    after: Option<char>,
)
    ensures
        ({
            let plain = emphasis_written(content, marker, seq![], is_pure, holds_block, before, after);
            let marked = emphasis_written(content, marker, marker, is_pure, holds_block, before, after);
            &&& plain matches Written::Markdown(x) ==> x == content
            &&& (plain is Markdown) == (marked is Markdown)
            &&& (plain is Html) == (marked is Html)
            &&& plain is Nothing ==> forall|i: int| 0 <= i < content.len() ==> is_unicode_whitespace(#[trigger] content[i])
        }),
{
    if content.len() > 0 {
        let lead = leading_hoisted(content, is_pure);
        lemma_hoists_within(content, is_pure);
        let inner = content.skip(lead as int);
        let trail = trailing_hoisted(inner, is_pure);
        lemma_hoists_within(inner, is_pure);
        let leading = content.take(lead as int);
        let rest = inner.take(inner.len() - trail);
        let trailing = inner.skip(inner.len() - trail);
        let e = Seq::<char>::empty();
        assert(leading + rest + trailing =~= content);
        if rest.len() == 0 {
            assert(leading + trailing =~= content);
            if !(leading.contains('\n') || trailing.contains('\n')) {
                // Leading: whitespace only, no hard break having been taken.
                lemma_span(content, CharClass::Whitespace);
                let ws = span(content, CharClass::Whitespace);
                if is_pure {
                    lemma_hard_breaks_end_takes_a_line_ending(content, ws);
                    if lead > ws {
                        assert(leading[ws + 1 as int] == '\n');
                    }
                } else {
                    lemma_span(content.take(ws as int), CharClass::Not('\n'));
                }
                assert(lead <= ws);
                assert forall|i: int| 0 <= i < leading.len() implies is_unicode_whitespace(#[trigger] leading[i]) by {
                    assert(in_class(content[i], CharClass::Whitespace));
                }
                // Trailing: whitespace only, likewise.
                lemma_back_span(inner, CharClass::Whitespace);
                let trimmed = (inner.len() - back_span(inner, CharClass::Whitespace)) as nat;
                if is_pure {
                    lemma_hard_breaks_start_takes_a_line_ending(inner, trimmed);
                    lemma_hard_breaks_start_within(inner, trimmed);
                    if hard_breaks_start(inner, trimmed) < trimmed {
                        assert(trailing[trimmed - (inner.len() - trail)] == '\n');
                    }
                } else {
                    lemma_back_span(inner.skip(trimmed as int), CharClass::Not('\n'));
                }
                assert(inner.len() - trail >= trimmed);
                assert forall|i: int| 0 <= i < trailing.len() implies is_unicode_whitespace(#[trigger] trailing[i]) by {
                    assert(trailing[i] == inner[inner.len() - trail + i]);
                    assert(in_class(inner[inner.len() - trail + i], CharClass::Whitespace));
                }
                assert forall|i: int| 0 <= i < content.len() implies is_unicode_whitespace(#[trigger] content[i]) by {
                    if i < leading.len() {
                        assert(content[i] == leading[i]);
                    } else {
                        assert(content[i] == trailing[i - leading.len()]);
                    }
                }
            }
        } else if is_pure && holds_block && (some_line_blank(rest) || !paragraph(rest)) {
            lemma_emphasize_paragraphs_adds_only_markers(rest, marker);
        } else if fuses(rest, marker) {
        } else {
            assert(leading + e + rest + e + trailing =~= content);
        }
    }
}

/// In faithful mode a closing marker against punctuation needs room on its
/// other side: where the content ends on punctuation, with no whitespace after
/// it to move out, and the output holds an alphanumeric right after the
/// element, the closing marker would not be right-flanking, so the element is
/// written as HTML — whatever the output holds before it.
pub proof fn lemma_faithful_closing_marker_needs_room_after(
    content: Seq<char>,
    marker: Seq<char>,
    holds_block: bool,
    before: Option<char>,
    next: char,
)
    requires
        content.len() > 0,
        !is_unicode_whitespace(content.last()),
        !alphanumeric(content.last()),
        alphanumeric(next),
    ensures
        emphasis_written(content, marker, marker, false, holds_block, before, Some(next)) is Html,
{
    lemma_span(content, CharClass::Whitespace);
    let ws = span(content, CharClass::Whitespace);
    assert(ws < content.len()) by {
        if ws == content.len() {
            assert(in_class(content[content.len() - 1], CharClass::Whitespace));
        }
    }
    lemma_span(content.take(ws as int), CharClass::Not('\n'));
    let lead = leading_hoisted(content, false);
    assert(lead <= ws);
    let inner = content.skip(lead as int);
    assert(inner.len() > 0 && inner.last() == content.last());
    assert(back_span(inner, CharClass::Whitespace) == 0);
    let w = inner.skip(inner.len() as int);
    assert(w =~= Seq::<char>::empty());
    assert(!holds_blank_line(w));
    assert(trailing_hoisted(inner, false) == 0);
    let rest = inner.take(inner.len() as int);
    assert(rest =~= inner);
    assert(inner.skip(inner.len() as int) =~= Seq::<char>::empty());
}

/// The mirror for the opening marker: where the content starts with
/// punctuation, with no whitespace before it to move out, and the output holds
/// an alphanumeric right before the element, the opening marker would not be
/// left-flanking, so faithful mode writes the element as HTML — whatever the
/// output holds after it.
pub proof fn lemma_faithful_opening_marker_needs_room_before(
    content: Seq<char>,
    marker: Seq<char>,
    holds_block: bool,
    previous: char,
    after: Option<char>,
)
    requires
        content.len() > 0,
        !is_unicode_whitespace(content[0]),
        !alphanumeric(content[0]),
        alphanumeric(previous),
    ensures
        emphasis_written(content, marker, marker, false, holds_block, Some(previous), after) is Html,
{
    lemma_span_zero(content);
    let w = content.take(0);
    assert(w =~= Seq::<char>::empty());
    assert(!holds_blank_line(w));
    assert(span(w, CharClass::Not('\n')) == 0);
    assert(leading_hoisted(content, false) == 0);
    let inner = content.skip(0);
    assert(inner =~= content);
    lemma_back_span(inner, CharClass::Whitespace);
    let b = back_span(inner, CharClass::Whitespace);
    assert(b < inner.len()) by {
        if b == inner.len() {
            assert(in_class(inner[0], CharClass::Whitespace));
        }
    }
    let trimmed = (inner.len() - b) as nat;
    let tw = inner.skip(trimmed as int);
    lemma_back_span(tw, CharClass::Not('\n'));
    let trail = trailing_hoisted(inner, false);
    assert(trail <= b);
    let rest = inner.take(inner.len() - trail);
    assert(rest.len() > 0 && rest[0] == content[0]);
    assert(content.take(0) =~= Seq::<char>::empty());
}

/// A text that does not open with whitespace has no whitespace run to hoist.
proof fn lemma_span_zero(content: Seq<char>)
    requires
        content.len() > 0,
        !is_unicode_whitespace(content[0]),
    ensures
        span(content, CharClass::Whitespace) == 0,
{
}

/// A bullet — at most three spaces, a `-`, `*` or `+`, and a space or tab —
/// opens a list item, not a line of a paragraph, wherever it stands in the
/// paragraph.
pub proof fn lemma_a_bullet_is_no_paragraph_line(
    indent: nat,
    bullet: char,
    gap: char,
    rest: Seq<char>,
    is_first: bool,
)
    requires
        indent < 4,
        bullet == '-' || bullet == '*' || bullet == '+',
        gap == ' ' || gap == '\t',
    ensures
        !paragraph_line(Seq::new(indent, |i: int| ' ') + seq![bullet, gap] + rest, is_first),
{
    let line = Seq::new(indent, |i: int| ' ') + seq![bullet, gap] + rest;
    assert forall|i: int| 0 <= i < indent implies in_class(#[trigger] line[i], CharClass::Space) by {
        assert(line[i] == ' ');
    }
    assert(line[indent as int] == bullet);
    lemma_span_unique(line, CharClass::Space, indent as int);
    let text = line.skip(indent as int);
    assert(text[0] == bullet && text[1] == gap);
}

/// A chunk holding a bullet line goes out unmarked: a list written by an
/// element's block child is a list, and markers around it would make it an
/// emphasized paragraph.
pub proof fn lemma_a_chunk_holding_a_bullet_goes_out_unmarked(
    p: Seq<char>,
    k: int,
    indent: nat,
    bullet: char,
    gap: char,
    rest: Seq<char>,
    marker: Seq<char>,
    shown: Seq<char>,
)
    requires
        0 <= k < lines(p).len(),
        lines(p)[k] == Seq::new(indent, |i: int| ' ') + seq![bullet, gap] + rest,
        indent < 4,
        bullet == '-' || bullet == '*' || bullet == '+',
        gap == ' ' || gap == '\t',
    ensures
        paragraph_written(p, marker, shown) == p,
{
    lemma_a_bullet_is_no_paragraph_line(indent, bullet, gap, rest, k == 0);
    assert(!paragraph(p));
}

/// Content with no blank line that holds a bullet line is written by
/// [`emphasize_paragraphs`] exactly as it came in.
pub proof fn lemma_emphasize_leaves_a_list_unmarked(
    content: Seq<char>,
    k: int,
    indent: nat,
    bullet: char,
    gap: char,
    rest: Seq<char>,
    marker: Seq<char>,
)
    requires
        forall|i: int|
            0 <= i < inclusive_lines(content).len() ==> !blank(
                text_of_line(#[trigger] inclusive_lines(content)[i]),
            ),
        0 <= k < lines(content).len(),
        lines(content)[k] == Seq::new(indent, |i: int| ' ') + seq![bullet, gap] + rest,
        indent < 4,
        bullet == '-' || bullet == '*' || bullet == '+',
        gap == ' ' || gap == '\t',
    ensures
        emphasized(content, marker, marker) == content,
{
    lemma_one_paragraph_without_a_blank_line(content, marker, marker);
    lemma_a_chunk_holding_a_bullet_goes_out_unmarked(content, k, indent, bullet, gap, rest, marker, marker);
}

} // verus!
