use htmd::dom::{
    adjacent_char, following_char, holds_block_element, preceding_char, scan_back,
    scan_forward, Adjacent, AncestorFrame, Direction, DomNode,
};

fn element(tag: &str, children: Vec<DomNode>) -> DomNode {
    DomNode::Element {
        tag: tag.to_string(),
        children,
    }
}

fn text(s: &str) -> DomNode {
    DomNode::Text(s.to_string())
}

fn is_char(a: Adjacent, c: char) -> bool {
    matches!(a, Adjacent::Char(x) if x == c)
}

#[test]
fn a_scan_finds_the_nearest_character_that_reaches_the_output() {
    assert!(is_char(scan_back(&[text("ab"), text("")]), 'b'));
    assert!(is_char(scan_forward(&[text(""), DomNode::Other, text("cd")]), 'c'));
    assert!(is_char(scan_back(&[element("span", vec![text("x"), text("y")])]), 'y'));
    assert!(is_char(scan_forward(&[element("span", vec![element("b", vec![]), text("z")])]), 'z'));
    assert!(matches!(scan_back(&[]), Adjacent::Nothing));
    assert!(matches!(scan_back(&[DomNode::Other]), Adjacent::Nothing));
}

#[test]
fn a_break_or_a_block_is_an_edge_and_an_image_a_link() {
    assert!(matches!(scan_back(&[text("a"), element("br", vec![])]), Adjacent::Edge));
    assert!(matches!(scan_forward(&[element("div", vec![text("a")])]), Adjacent::Edge));
    assert!(is_char(scan_back(&[element("img", vec![])]), ')'));
    assert!(is_char(scan_forward(&[element("img", vec![])]), '!'));
}

#[test]
fn the_walk_goes_out_through_inline_ancestors_only() {
    let frames = vec![
        AncestorFrame {
            before: vec![],
            after: vec![],
            parent_tag: Some("span".to_string()),
        },
        AncestorFrame {
            before: vec![text("x")],
            after: vec![text(" y")],
            parent_tag: Some("p".to_string()),
        },
    ];
    assert_eq!(Some('x'), preceding_char(&frames));
    assert_eq!(Some(' '), following_char(&frames));

    let blocked = vec![
        AncestorFrame {
            before: vec![],
            after: vec![],
            parent_tag: Some("div".to_string()),
        },
        AncestorFrame {
            before: vec![text("x")],
            after: vec![],
            parent_tag: None,
        },
    ];
    assert_eq!(None, adjacent_char(&blocked, Direction::Back));
    assert_eq!(None, adjacent_char(&[], Direction::Forward));
}

#[test]
fn a_block_anywhere_beneath_is_found() {
    let em = element(
        "em",
        vec![text("a"), element("span", vec![element("h1", vec![])])],
    );
    assert!(holds_block_element(&em));
    assert!(!holds_block_element(&element("em", vec![text("a"), element("b", vec![])])));
    assert!(!holds_block_element(&text("a")));
}
