use htmd::html_block::opens_html_block;

#[test]
fn matches_the_raw_text_and_block_level_conditions() {
    // Condition 1.
    assert!(opens_html_block("<pre>a"));
    assert!(opens_html_block(r#"<script src="s">a"#));
    assert!(opens_html_block("<textarea"));
    assert!(!opens_html_block("<pre/>"));
    assert!(!opens_html_block("<pre-x>a"));
    // Condition 6.
    assert!(opens_html_block("<div>a"));
    assert!(opens_html_block("</div>a"));
    assert!(opens_html_block("<hr/>"));
    assert!(opens_html_block("<P>a"));
    assert!(!opens_html_block("<divx>a"));
}

#[test]
fn matches_the_comment_declaration_and_cdata_conditions() {
    assert!(opens_html_block("<!--a-->b"));
    assert!(opens_html_block("<?php ?>a"));
    assert!(opens_html_block("<!DOCTYPE html>"));
    assert!(opens_html_block("<![CDATA[a]]>b"));
    assert!(!opens_html_block("<!1>"));
}

/// Condition 7 needs a complete tag with nothing but whitespace after it,
/// which separates a lone `<br>` from a run of them.
#[test]
fn matches_a_lone_complete_tag_only() {
    assert!(opens_html_block("<br>"));
    assert!(opens_html_block("<br>  "));
    assert!(opens_html_block("<br />"));
    assert!(opens_html_block("</em>"));
    assert!(opens_html_block(r#"<em foo="1" bar='2' baz=3>"#));
    // The raw text exclusion is on the open tag alone.
    assert!(opens_html_block("</pre>"));
    assert!(opens_html_block("</script>  "));
    assert!(!opens_html_block("</pre>a"));
    assert!(!opens_html_block("<br><br>"));
    assert!(!opens_html_block("<br>a"));
    assert!(!opens_html_block("<em foo=>"));
    assert!(!opens_html_block("<em"));
}

#[test]
fn ignores_content_which_opens_no_block() {
    assert!(!opens_html_block(""));
    assert!(!opens_html_block("a<br>"));
    assert!(!opens_html_block("*a*"));
    assert!(opens_html_block("   <br>"));
    assert!(!opens_html_block("    <br>"));
}

#[test]
fn ignores_every_line_after_the_first() {
    assert!(!opens_html_block("a\n<div>b"));
    assert!(!opens_html_block("a\n<!--b-->c"));
    assert!(!opens_html_block("a\n<pre>b"));
    assert!(!opens_html_block("a\n<br>"));
    assert!(opens_html_block("<div>a\nb"));
}

#[test]
fn a_crlf_line_ending_ends_the_first_line_too() {
    assert!(opens_html_block("<br>\r\na"));
    assert!(!opens_html_block("a\r\n<div>"));
}

#[test]
fn tag_names_are_read_in_either_case() {
    assert!(opens_html_block("<DIV>"));
    assert!(opens_html_block("<Pre>a"));
    assert!(opens_html_block("<BR>"));
    assert!(!opens_html_block("<![cdata[a]]>b"));
}

#[test]
fn attribute_values_may_be_quoted_or_bare() {
    assert!(opens_html_block("<a href='x y'>"));
    assert!(opens_html_block("<a b=\"x'y\" c>"));
    assert!(!opens_html_block("<a b='x>"));
    assert!(opens_html_block("<a  b = c >\t"));
    assert!(!opens_html_block("<a b=`c`>"));
}

#[test]
fn closing_tag_names_are_read_in_either_case() {
    assert!(opens_html_block("</DIV>a"));
    assert!(opens_html_block("</Div>a"));
    assert!(opens_html_block("</PRE>"));
    assert!(opens_html_block("</EM>"));
    assert!(!opens_html_block("</DIVX>a"));
}
