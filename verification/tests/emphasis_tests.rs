use htmd::element_handler::emphasis::{emphasize_paragraphs, fence_delimiter, leading_hoist, trailing_hoist};

/// Each paragraph carries its own pair of markers, and what separates them
/// comes back untouched.
#[test]
fn every_paragraph_is_emphasized_on_its_own() {
    assert_eq!("*a*\n\n*b*", emphasize_paragraphs("a\n\nb", "*"));
    assert_eq!("**a**\n\n**b**", emphasize_paragraphs("a\n\nb", "**"));
    assert_eq!("*a*\n \n*b*", emphasize_paragraphs("a\n \nb", "*"));
    assert_eq!("*a*\n\n\\\n*b*", emphasize_paragraphs("a\n\n\\\nb", "*"));
}

/// Emphasis is a paragraph's to carry; every other block goes out as it came
/// in.
#[test]
fn a_block_that_is_not_a_paragraph_goes_out_unmarked() {
    for block in [
        "```\nx\n```",
        "~~~\nx\n~~~",
        "    x",
        "*   x\n*   y",
        "1.  x",
        "> x",
        "# x",
        "x\n===",
        "| h |\n| - |\n| x |",
        "* * *",
        "<div>x</div>",
    ] {
        assert_eq!(
            format!("*a*\n\n{block}\n\n*b*"),
            emphasize_paragraphs(&format!("a\n\n{block}\n\nb"), "*"),
            "{block:?}"
        );
    }
}

/// A blank line inside a fence is part of the code rather than a paragraph
/// boundary. Only a run at least as long as the one that opened the fence
/// closes it.
#[test]
fn a_fence_holds_its_own_blank_lines() {
    assert_eq!(
        "*a*\n\n```\nx\n\ny\n```\n\n*b*",
        emphasize_paragraphs("a\n\n```\nx\n\ny\n```\n\nb", "*")
    );
    assert_eq!(
        "````\nx\n\n```\n\ny\n````",
        emphasize_paragraphs("````\nx\n\n```\n\ny\n````", "*")
    );
}

/// A code span is not a fence, however many backticks it opens with.
#[test]
fn a_code_span_does_not_open_a_fence() {
    assert_eq!(None, fence_delimiter("``` ``x ```"));
    assert_eq!(Some("```"), fence_delimiter("```"));
    assert_eq!(Some("```"), fence_delimiter("```rust"));
    // Only a backtick fence restricts its info string; a tilde one does not.
    assert_eq!(Some("~~~"), fence_delimiter("~~~ `x`"));

    assert_eq!(
        "*``` ``x ```*\n\n*d*",
        emphasize_paragraphs("``` ``x ```\n\nd", "*")
    );
    assert_eq!(
        "*``` ``x ```*\n\n````\na```b\n\nc\n````\n\n*d*",
        emphasize_paragraphs("``` ``x ```\n\n````\na```b\n\nc\n````\n\nd", "*")
    );
}

/// A marker is only as long as the run it lands in, so the paragraph goes out
/// unmarked rather than join a run already at its edge.
#[test]
fn a_marker_never_joins_a_delimiter_run_already_there() {
    assert_eq!("*a*\n\n*b*", emphasize_paragraphs("a\n\n*b*", "*"));
    assert_eq!("*a*\n\n*b*z", emphasize_paragraphs("a\n\n*b*z", "*"));
    assert_eq!("*a*\n\nz*b*", emphasize_paragraphs("a\n\nz*b*", "*"));
    assert_eq!("**a**\n\n**b**", emphasize_paragraphs("a\n\n**b**", "**"));
    // The run has to be the marker's own character to fuse with it.
    assert_eq!("*a*\n\n*_b_*", emphasize_paragraphs("a\n\n_b_", "*"));

    // An escaped asterisk is text rather than a run, wherever it sits.
    assert_eq!(r"*a\*b*", emphasize_paragraphs(r"a\*b", "*"));
    assert_eq!(
        "*a*\n\n*2 \\* 3 = 6 \\**",
        emphasize_paragraphs("a\n\n2 \\* 3 = 6 \\*", "*")
    );
}

/// Text that merely opens with a block's character is still text, and it
/// keeps its emphasis.
#[test]
fn text_that_only_looks_like_a_block_is_still_a_paragraph() {
    for text in [
        "#hashtag",
        "####### x",
        "| x |",
        "|--|",
        "| :-: |",
        "<https://e.com>",
        "<span>x</span>",
        "1234567890. x",
        "-dash",
    ] {
        assert_eq!(
            format!("*a*\n\n*{text}*"),
            emphasize_paragraphs(&format!("a\n\n{text}"), "*"),
            "{text:?}"
        );
    }
}

/// A `\r` is whitespace, so it moves out with the rest of the run, but it is
/// not a line ending.
#[test]
fn carriage_return_is_not_a_line_ending() {
    assert_eq!(1, leading_hoist("\ra", false));
    assert_eq!(1, trailing_hoist("a\r", false));

    assert_eq!(1, leading_hoist("\r\na", false));
    assert_eq!(0, trailing_hoist("a\r\n", false));

    assert_eq!(0, leading_hoist("\\\ra", true));
    assert_eq!(1, trailing_hoist("a\\\r", true));

    assert_eq!(2, leading_hoist("\\\na", true));
    assert_eq!(2, trailing_hoist("a\\\n", true));
}

/// Only the odd backslash of a run is a break's marker.
#[test]
fn an_escaped_backslash_is_not_a_break_marker() {
    assert_eq!(1, trailing_hoist("a\\\\\n", true));
    assert_eq!(1, trailing_hoist("a\\\\\\\\\n", true));

    assert_eq!(2, trailing_hoist("a\\\n", true));
    assert_eq!(2, trailing_hoist("a\\\\\\\n", true));
}

/// The hoists count bytes, as the text they cut is indexed by them.
#[test]
fn hoists_count_the_bytes_of_what_moves_out() {
    // A no-break space is whitespace of two bytes.
    assert_eq!(2, leading_hoist("\u{A0}a", false));
    assert_eq!(3, trailing_hoist("a\u{3000}", true));
    assert_eq!(0, leading_hoist("éa", false));
}

/// Faithful mode keeps a hard break inside the element, but a blank line
/// moves out in both modes.
#[test]
fn a_blank_line_moves_out_in_either_mode() {
    assert_eq!(1, leading_hoist(" \na", false));
    assert_eq!(3, leading_hoist(" \n\na", false));
    assert_eq!(0, trailing_hoist("a \n", false));
    assert_eq!(3, trailing_hoist("a\n\n ", false));
    // Pure mode takes a run of hard breaks along with the whitespace.
    assert_eq!(5, leading_hoist(" \\\n\\\na", true));
    assert_eq!(4, trailing_hoist("a\\\n\\\n", true));
}

#[test]
fn paragraphs_are_cut_at_blank_lines_only_outside_fences() {
    assert_eq!("a\n*b*", emphasize_paragraphs("a\n*b*", "*"));
    assert_eq!("*a\nb*", emphasize_paragraphs("a\nb", "*"));
    assert_eq!(" *a* \n\n", emphasize_paragraphs(" a \n\n", "*"));
    assert_eq!("", emphasize_paragraphs("", "*"));
}

use htmd::dom::{AncestorFrame, DomNode};
use htmd::element_handler::emphasis::{
    emphasis_handler, flanking_allows, fuses_with_marker, is_paragraph, is_paragraph_line,
    is_table_delimiter_row, opens_ordered_list, ends_in_break_marker, closes_fence, line_text,
    is_blank_line,
};
use htmd::element_handler::HandlerOutcome;

fn chars(s: &str) -> Vec<char> {
    s.chars().collect()
}

fn em(children: Vec<DomNode>) -> DomNode {
    DomNode::Element {
        tag: "em".to_string(),
        children,
    }
}

fn in_paragraph(before: &str, after: &str) -> Vec<AncestorFrame> {
    vec![AncestorFrame {
        before: vec![DomNode::Text(before.to_string())],
        after: vec![DomNode::Text(after.to_string())],
        parent_tag: Some("p".to_string()),
    }]
}

fn written(outcome: HandlerOutcome) -> String {
    match outcome {
        HandlerOutcome::Markdown(s) => s,
        HandlerOutcome::Skip => "<skip>".to_string(),
        HandlerOutcome::Serialize => "<html>".to_string(),
    }
}

#[test]
fn whitespace_moves_outside_the_markers() {
    let plain = em(vec![]);
    assert_eq!(" *a* ", written(emphasis_handler(" a ", "*", false, &plain, &[])));
    assert_eq!("**a b**", written(emphasis_handler("a b", "**", true, &plain, &[])));
    assert_eq!("<skip>", written(emphasis_handler("", "*", false, &plain, &[])));
    assert_eq!("<skip>", written(emphasis_handler("  ", "*", false, &plain, &[])));
    // A hard break that was the whole content is kept.
    assert_eq!("\\\n", written(emphasis_handler("\\\n", "*", true, &plain, &[])));
}

#[test]
fn markers_that_cannot_flank_make_the_element_html_in_faithful_mode() {
    let plain = em(vec![]);
    // Punctuation at the edge, a letter outside: no flanking.
    assert_eq!("<html>", written(emphasis_handler("(a)", "*", false, &plain, &in_paragraph("x", "y"))));
    // Whitespace outside allows it.
    assert_eq!("*(a)*", written(emphasis_handler("(a)", "*", false, &plain, &in_paragraph("x ", " y"))));
    // So does the edge of the block.
    assert_eq!("*(a)*", written(emphasis_handler("(a)", "*", false, &plain, &[])));
    // A hard break stays inside in faithful mode and cannot be flanked.
    assert_eq!("<html>", written(emphasis_handler("a  \n", "*", false, &plain, &[])));
    // Pure mode has no fallback.
    assert_eq!("*(a)*", written(emphasis_handler("(a)", "*", true, &plain, &in_paragraph("x", "y"))));
}

#[test]
fn pure_mode_emphasizes_a_held_block_paragraph_by_paragraph() {
    let holding = em(vec![DomNode::Element {
        tag: "div".to_string(),
        children: vec![],
    }]);
    assert_eq!("*a*\n\n*b*", written(emphasis_handler("a\n\nb", "*", true, &holding, &[])));
    assert_eq!("# a", written(emphasis_handler("# a", "*", true, &holding, &[])));
    // Text that only reads like a block keeps its markers.
    assert_eq!("*# a*", written(emphasis_handler("# a", "*", true, &em(vec![]), &[])));
}

#[test]
fn flanking_goes_by_alphanumerics() {
    assert!(flanking_allows(None));
    assert!(flanking_allows(Some(' ')));
    assert!(flanking_allows(Some('(')));
    assert!(!flanking_allows(Some('a')));
    assert!(!flanking_allows(Some('7')));
    assert!(!flanking_allows(Some('é')));
}

#[test]
fn line_level_readers() {
    assert!(ends_in_break_marker(&chars("a\\")));
    assert!(!ends_in_break_marker(&chars("a\\\\")));
    assert!(!ends_in_break_marker(&chars("")));
    assert!(is_blank_line(&chars(" \t ")));
    assert!(!is_blank_line(&chars(" a")));
    assert_eq!(chars("a"), line_text(&chars("a\r\n")).to_vec());
    assert_eq!(chars("a"), line_text(&chars("a\r")).to_vec());
    assert!(closes_fence(&chars("````  "), &chars("```")));
    assert!(!closes_fence(&chars("``"), &chars("```")));
    assert!(!closes_fence(&chars("~~~"), &chars("```")));
    assert!(!closes_fence(&chars("``` x"), &chars("```")));
    assert!(is_table_delimiter_row(&chars(" |:-|-: | ")));
    assert!(!is_table_delimiter_row(&chars("|::|")));
    assert!(!is_table_delimiter_row(&chars("-|")));
    assert!(opens_ordered_list(&chars("12. x")));
    assert!(!opens_ordered_list(&chars("12.x")));
    assert!(!opens_ordered_list(&chars("1) x")));
    assert!(is_paragraph_line(&chars("---"), true));
    assert!(!is_paragraph_line(&chars("---"), false));
    assert!(!is_paragraph_line(&chars("\tx"), true));
    assert!(!is_paragraph_line(&chars("+ x"), true));
    assert!(is_paragraph(&chars("a\nb")));
    assert!(!is_paragraph(&chars("a\n---")));
    assert!(fuses_with_marker(&chars("*a"), &chars("*")));
    assert!(!fuses_with_marker(&chars("a\\*"), &chars("*")));
    assert!(!fuses_with_marker(&chars("_a_"), &chars("*")));
}

#[test]
fn markers_are_all_that_is_added() {
    for content in [
        "a\n\n```\nx\n\ny\n```\n\nb",
        " a \n\n\\\nb\n\n> q",
        "x\n===\n\n*y*",
    ] {
        let written = emphasize_paragraphs(content, "*");
        assert_eq!(content.replace('*', ""), written.replace('*', ""), "{content:?}");
    }
    let holding = em(vec![DomNode::Element {
        tag: "div".to_string(),
        children: vec![],
    }]);
    let content = " a\n\n# b\n\nc ";
    let out = written(emphasis_handler(content, "_", true, &holding, &[]));
    assert_eq!(content, out.replace('_', ""));
}

#[test]
fn faithful_markers_never_straddle_a_blank_line() {
    let holding = em(vec![DomNode::Element {
        tag: "div".to_string(),
        children: vec![],
    }]);
    assert_eq!(
        "<html>",
        written(emphasis_handler("a\n\n<div>b</div>\n\nc", "*", false, &holding, &[]))
    );
    assert_eq!("<html>", written(emphasis_handler("a\n \nb", "*", false, &em(vec![]), &[])));
    // A line ending alone is no blank line.
    assert_eq!("*a\nb*", written(emphasis_handler("a\nb", "*", false, &em(vec![]), &[])));
}

#[test]
fn a_marker_never_joins_the_markers_of_nested_emphasis() {
    for pure in [true, false] {
        assert_eq!("*b*z", written(emphasis_handler("*b*z", "*", pure, &em(vec![]), &[])));
        assert_eq!("z*b*", written(emphasis_handler("z*b*", "*", pure, &em(vec![]), &[])));
        assert_eq!("**b**z", written(emphasis_handler("**b**z", "**", pure, &em(vec![]), &[])));
        assert_eq!("*b*", written(emphasis_handler("*b*", "*", pure, &em(vec![]), &[])));
        // A run of another character does not fuse.
        assert_eq!("*_b_*", written(emphasis_handler("_b_", "*", pure, &em(vec![]), &[])));
    }
    // An escaped marker at the end is text.
    assert_eq!("*a\\**", written(emphasis_handler("a\\*", "*", true, &em(vec![]), &[])));
}
