//! Headings: ATX, or Setext for the first two levels where asked for and
//! where the content cannot dissolve the heading.

use vstd::prelude::*;

use crate::chars::is_ascii_digit;
use crate::element_handler::emphasis::{any_blank_line, some_line_blank};
use crate::html_block::{opens_block, opens_html_block_chars};
use crate::text::{append_chars, chars_of, string_of};

verus! {

/// `n` copies of `c`.
pub open spec fn repeated(c: char, n: nat) -> Seq<char> {
    Seq::new(n, |i: int| c)
}

/// `content` with the line endings at either end taken off.
pub open spec fn newlines_trimmed(content: Seq<char>) -> Seq<char> {
    let start = crate::chars::span(content, crate::chars::CharClass::Is('\n'));
    let rest = content.skip(start as int);
    rest.take(rest.len() - crate::chars::back_span(rest, crate::chars::CharClass::Is('\n')))
}

/// The heading of `level` around `content` (line endings already trimmed):
/// Setext — the content underlined with `=` for the first level and `-` for
/// the second, one per character — where `setext` asks for it, the level
/// allows it, the content opens no HTML block, which would dissolve the
/// heading, and holds no blank line, which would end the paragraph the
/// underline attaches to; ATX — a run of `level` `#` and a space — otherwise.
pub open spec fn heading_written(level: nat, content: Seq<char>, setext: bool) -> Seq<char> {
    if (level == 1 || level == 2) && setext && !opens_block(content) && !some_line_blank(content) {
        seq!['\n', '\n'] + content + seq!['\n'] + repeated(
            if level == 1 {
                '='
            } else {
                '-'
            },
            content.len(),
        ) + seq!['\n', '\n']
    } else {
        seq!['\n', '\n'] + repeated('#', level) + seq![' '] + content + seq!['\n', '\n']
    }
}

/// `out` with `n` copies of `c` added at its end.
fn push_repeated(out: &mut Vec<char>, c: char, n: usize)
    ensures
        final(out)@ == old(out)@ + repeated(c, n as nat),
{
    let ghost start = out@;
    let mut i: usize = 0;
    while i < n
        invariant
            i <= n,
            out@ == start + repeated(c, i as nat),
        decreases n - i,
    {
        out.push(c);
        i += 1;
        assert(repeated(c, i as nat) =~= repeated(c, (i - 1) as nat).push(c));
    }
}

/// `content` without the line endings at either end.
pub fn trim_newlines(content: &[char]) -> (r: &[char])
    ensures
        r@ == newlines_trimmed(content@),
{
    let start = crate::chars::run_len(content, crate::chars::CharClass::Is('\n'));
    proof {
        crate::chars::lemma_span(content@, crate::chars::CharClass::Is('\n'));
    }
    let rest = vstd::slice::slice_subrange(content, start, content.len());
    assert(rest@ =~= content@.skip(start as int));
    let back = crate::chars::back_run_len(rest, crate::chars::CharClass::Is('\n'));
    proof {
        crate::chars::lemma_back_span(rest@, crate::chars::CharClass::Is('\n'));
    }
    let r = vstd::slice::slice_subrange(rest, 0, rest.len() - back);
    assert(r@ =~= rest@.take(rest@.len() - back));
    r
}

/// What an `<h1>` to `<h6>` named `tag` writes around `content`, the
/// Markdown of its children with the document whitespace at either end
/// already trimmed; `setext` says whether the Setext style is asked for.
///
/// A setext heading's content is a paragraph, so an HTML block opening in it
/// dissolves the heading. An ATX heading's `#` is leaf block syntax the block
/// scan matches first.
pub fn headings_handler(tag: &str, content: &str, setext: bool) -> (r: String)
    requires
        tag@.len() >= 2,
        is_ascii_digit(tag@[1]),
    ensures
        r@ == heading_written(
            (tag@[1] as u32 - '0' as u32) as nat,
            newlines_trimmed(content@),
            setext,
        ),
{
    let tag_chars = chars_of(tag);
    let level: u32 = (tag_chars[1] as u32) - ('0' as u32);
    let text = chars_of(content);
    let content = trim_newlines(text.as_slice());
    let mut result: Vec<char> = Vec::new();
    result.push('\n');
    result.push('\n');
    // A Setext underline attaches to the whole paragraph above it, so a blank
    // line, which ends that paragraph, forces ATX as well.
    if (level == 1 || level == 2) && setext && !opens_html_block_chars(content) && !any_blank_line(
        content,
    ) {
        // The Setext style for the first two levels.
        append_chars(&mut result, content);
        result.push('\n');
        let ch = if level == 1 {
            '='
        } else {
            '-'
        };
        push_repeated(&mut result, ch, content.len());
        result.push('\n');
        result.push('\n');
    } else {
        push_repeated(&mut result, '#', level as usize);
        result.push(' ');
        append_chars(&mut result, content);
        result.push('\n');
        result.push('\n');
    }
    string_of(result.as_slice())
}

/// Where the Setext style is written, its underline is exactly as long as the
/// heading's text, one character per character.
pub proof fn lemma_setext_underline_matches_text(level: nat, content: Seq<char>)
    requires
        level == 1 || level == 2,
        !opens_block(content),
        !some_line_blank(content),
    ensures
        ({
            let w = heading_written(level, content, true);
            &&& w.len() == 2 * content.len() + 5
            &&& w.subrange(2, 2 + content.len() as int) == content
            &&& forall|i: int|
                content.len() + 3 <= i < 2 * content.len() + 3 ==> #[trigger] w[i] == (if level
                    == 1 {
                    '='
                } else {
                    '-'
                })
        }),
{
    let w = heading_written(level, content, true);
    assert(w.subrange(2, 2 + content.len() as int) =~= content);
}

} // verus!
