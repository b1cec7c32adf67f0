use htmd::element_handler::headings::headings_handler;
use htmd::element_handler::p::p_handler;

#[test]
fn the_first_two_levels_may_be_setext() {
    assert_eq!("\n\nTitle\n=====\n\n", headings_handler("h1", "Title", true));
    assert_eq!("\n\nSub\n---\n\n", headings_handler("h2", "\nSub\n", true));
    assert_eq!("\n\n### Three\n\n", headings_handler("h3", "Three", true));
    assert_eq!("\n\n# Title\n\n", headings_handler("h1", "Title", false));
    assert_eq!("\n\n###### x\n\n", headings_handler("h6", "x", false));
}

#[test]
fn the_underline_counts_characters_not_bytes() {
    assert_eq!("\n\néé\n==\n\n", headings_handler("h1", "éé", true));
}

#[test]
fn content_opening_an_html_block_falls_back_to_atx() {
    assert_eq!("\n\n# <div>x\n\n", headings_handler("h1", "<div>x", true));
    assert_eq!("\n\n## <!-- c -->\n\n", headings_handler("h2", "<!-- c -->", true));
    assert_eq!("\n\n<em>x</em>\n==========\n\n", headings_handler("h1", "<em>x</em>", true));
}

#[test]
fn a_paragraph_that_would_open_an_html_block_is_written_as_html() {
    assert!(p_handler("<div>a</div>", true));
    assert!(!p_handler("<div>a</div>", false));
    assert!(!p_handler("a <div>", true));
    assert!(!p_handler("", true));
}

#[test]
fn a_blank_line_forces_atx() {
    assert_eq!("\n\n# x\n \ny\n\n", headings_handler("h1", "x\n \ny", true));
    assert_eq!("\n\n# a\n\n<div>x</div>\n\nb\n\n", headings_handler("h1", "a\n\n<div>x</div>\n\nb", true));
    // A line ending alone keeps the heading one paragraph.
    assert_eq!("\n\na  \nb\n=====\n\n", headings_handler("h1", "a  \nb", true));
}
