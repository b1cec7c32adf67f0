use htmd::dom::DomNode;
use htmd::element_handler::list::{
    add_ol_li_marker, block_child_count, get_ol_content, ListChildContent, decimal_chars, digits, enclosing_list,
    holds_tight_blocks, is_tight_list, items, list_attribute_allowance, list_handler,
    list_must_serialize, list_walk_written, loose_list_is_writable, number_ol_items, ol_boundary_newlines,
    ol_start_index,
};
use htmd::element_handler::HandlerOutcome;

fn element(tag: &str, children: Vec<DomNode>) -> DomNode {
    DomNode::Element {
        tag: tag.to_string(),
        children,
    }
}

fn text(s: &str) -> DomNode {
    DomNode::Text(s.to_string())
}

fn markdown(outcome: HandlerOutcome) -> Option<String> {
    match outcome {
        HandlerOutcome::Markdown(s) => Some(s),
        _ => None,
    }
}

#[test]
fn test_count_digits() {
    assert_eq!(1, digits(1));
    assert_eq!(1, digits(0));
    assert_eq!(2, digits(45));
    assert_eq!(3, digits(450));
}

#[test]
fn digits_count_every_power_of_ten() {
    assert_eq!(1, digits(9));
    assert_eq!(2, digits(10));
    assert_eq!(2, digits(99));
    assert_eq!(3, digits(100));
    assert_eq!(7, digits(1_000_000));
    assert_eq!(20, digits(usize::MAX as u64 as usize).max(if usize::BITS == 64 { 20 } else { 0 }));
}

#[test]
fn numerals_are_written_without_leading_zeros() {
    assert_eq!(vec!['0'], decimal_chars(0));
    assert_eq!(vec!['7'], decimal_chars(7));
    assert_eq!(vec!['1', '0'], decimal_chars(10));
    assert_eq!(vec!['4', '5', '0'], decimal_chars(450));
}

fn tight() -> DomNode {
    element(
        "ul",
        vec![
            text("\n"),
            element("li", vec![text("a")]),
            text("\n"),
            element("li", vec![text("b")]),
        ],
    )
}

fn loose() -> DomNode {
    element(
        "ol",
        vec![
            element("li", vec![element("p", vec![text("a")])]),
            element("li", vec![text("b")]),
        ],
    )
}

fn single_item_single_block() -> DomNode {
    element("ul", vec![element("li", vec![element("p", vec![text("a")])])])
}

#[test]
fn one_paragraph_anywhere_makes_the_list_loose() {
    assert!(is_tight_list(&tight()));
    assert!(!is_tight_list(&loose()));
    // An item holding only a nested block says nothing.
    assert!(is_tight_list(&element(
        "ul",
        vec![element("li", vec![element("ul", vec![])])]
    )));
    assert!(is_tight_list(&element("ul", vec![])));
}

#[test]
fn items_are_the_li_children_only() {
    assert_eq!(vec![1, 3], items(&tight()));
    assert_eq!(vec![0, 1], items(&loose()));
    assert_eq!(Vec::<usize>::new(), items(&text("x")));
}

#[test]
fn blocks_of_an_item_are_counted() {
    let item = element(
        "li",
        vec![
            element("p", vec![]),
            text(" "),
            element("em", vec![]),
            element("div", vec![]),
        ],
    );
    assert_eq!(2, block_child_count(&item));
    assert_eq!(0, block_child_count(&element("li", vec![text("a")])));
}

#[test]
fn a_loose_list_needs_room_for_its_blank_line() {
    assert!(loose_list_is_writable(&loose()));
    assert!(!loose_list_is_writable(&single_item_single_block()));
    assert!(loose_list_is_writable(&element(
        "ul",
        vec![element(
            "li",
            vec![element("p", vec![]), element("p", vec![])]
        )]
    )));
    assert!(!loose_list_is_writable(&element("ul", vec![])));
}

#[test]
fn items_of_a_tight_list_hold_tight_blocks() {
    let list = tight();
    let item = element("li", vec![text("a")]);
    assert!(holds_tight_blocks(&list, None));
    assert!(holds_tight_blocks(&item, Some(&list)));
    assert!(!holds_tight_blocks(&item, Some(&loose())));
    assert!(!holds_tight_blocks(&item, None));
    assert!(!holds_tight_blocks(&element("div", vec![]), Some(&list)));
    assert!(enclosing_list(Some(&list)).is_some());
    assert!(enclosing_list(Some(&element("div", vec![]))).is_none());
}

#[test]
fn only_a_start_attribute_can_be_spelled() {
    assert_eq!(1, list_attribute_allowance(Some("start")));
    assert_eq!(0, list_attribute_allowance(Some("class")));
    assert_eq!(0, list_attribute_allowance(None));
}

#[test]
fn faithful_mode_serializes_what_markdown_cannot_spell() {
    assert!(!list_must_serialize(true, true, true, &tight()));
    assert!(!list_must_serialize(true, true, true, &loose()));
    assert!(list_must_serialize(true, false, true, &tight()));
    assert!(list_must_serialize(true, true, false, &tight()));
    assert!(list_must_serialize(
        true,
        true,
        true,
        &element("ul", vec![element("div", vec![])])
    ));
    assert!(list_must_serialize(true, true, true, &single_item_single_block()));
    // Pure mode writes them all.
    assert!(!list_must_serialize(false, false, false, &single_item_single_block()));
}

#[test]
fn a_list_is_framed_by_blank_lines_unless_nested() {
    assert_eq!(
        Some("\n\n* a\n* b\n\n".to_string()),
        markdown(list_walk_written(true, None, "\n* a\n* b\n\n", true))
    );
    assert_eq!(
        Some("\n* a\n".to_string()),
        markdown(list_walk_written(true, Some("li"), "\n\n* a", true))
    );
    assert!(matches!(
        list_walk_written(true, None, "* a", false),
        HandlerOutcome::Serialize
    ));
    assert_eq!(
        Some("\n\n* a\n\n".to_string()),
        markdown(list_walk_written(false, Some("div"), "* a", false))
    );
    assert!(matches!(
        list_walk_written(false, None, "\n\n", true),
        HandlerOutcome::Skip
    ));
}

#[test]
fn the_start_attribute_is_read_as_a_number() {
    assert_eq!(1, ol_start_index(None));
    assert_eq!(3, ol_start_index(Some("3")));
    assert_eq!(42, ol_start_index(Some("+42")));
    assert_eq!(1, ol_start_index(Some("0")));
    assert_eq!(1, ol_start_index(Some("-2")));
    assert_eq!(1, ol_start_index(Some("x")));
    assert_eq!(1, ol_start_index(Some("")));
}

#[test]
fn items_are_numbered_in_turn() {
    let numbering = number_ol_items(&[false, true, false, true, true], 9);
    assert_eq!(
        vec![None, Some(9), None, Some(10), Some(11)],
        numbering.numbers
    );
    assert_eq!(11, numbering.highest_index);
    assert_eq!(4, number_ol_items(&[], 5).highest_index);
}

#[test]
fn a_tight_ordered_list_joins_its_items_on_consecutive_lines() {
    assert_eq!(1, ol_boundary_newlines(&tight()));
    assert_eq!(2, ol_boundary_newlines(&loose()));
}

#[test]
fn markers_line_up_the_text_of_every_item() {
    let indent = |text: Vec<char>, width: usize| -> Vec<char> {
        let mut out = Vec::new();
        for ch in text {
            out.push(ch);
            if ch == '\n' {
                out.extend(std::iter::repeat(' ').take(width));
            }
        }
        out
    };
    assert_eq!("\n9.  a", add_ol_li_marker(1, "\n\na", 9, 10, &indent));
    assert_eq!("\n10. a\n    b", add_ol_li_marker(1, "a\nb", 10, 10, &indent));
    assert_eq!("\n1.x", add_ol_li_marker(0, "x", 1, 3, &indent));
}

#[test]
fn the_start_attribute_is_read_as_from_str_reads_an_i32() {
    assert_eq!(7, ol_start_index(Some("007")));
    assert_eq!(1, ol_start_index(Some(" 3")));
    assert_eq!(1, ol_start_index(Some("3 ")));
    assert_eq!(1, ol_start_index(Some("+")));
    assert_eq!(2147483647, ol_start_index(Some("2147483647")));
    assert_eq!(1, ol_start_index(Some("2147483648")));
}

fn child(text: &str, is_li: bool, translated: bool) -> Option<ListChildContent> {
    Some(ListChildContent {
        text: text.to_string(),
        is_li,
        translated,
    })
}

#[test]
fn an_ordered_list_numbers_and_joins_what_its_children_wrote() {
    let indent = |text: Vec<char>, width: usize| -> Vec<char> {
        let mut out = Vec::new();
        for ch in text {
            out.push(ch);
            if ch == '\n' {
                out.extend(std::iter::repeat(' ').take(width));
            }
        }
        out
    };
    // Joins with the boundary's worth of line endings between blocks.
    let append_block = |contents: String, block: String, newlines: usize| -> String {
        if contents.is_empty() {
            block.trim_matches('\n').to_string()
        } else {
            format!("{}{}{}", contents, "\n".repeat(newlines), block.trim_matches('\n'))
        }
    };
    let children = vec![
        child("\n", false, true),
        None,
        child("a", true, true),
        child("b\nc", true, true),
    ];
    let (content, translated) = get_ol_content(&children, Some("9"), &tight(), 1, &indent, &append_block);
    assert_eq!("9.  a\n10. b\n    c", content);
    assert!(translated);

    let children = vec![child("a", true, true), child("b", true, false)];
    let (content, translated) = get_ol_content(&children, None, &loose(), 1, &indent, &append_block);
    assert_eq!("1. a\n\n2. b", content);
    assert!(!translated);

    let (content, translated) = get_ol_content(&[None, None], None, &tight(), 1, &indent, &append_block);
    assert_eq!("", content);
    assert!(translated);
}

#[test]
fn a_list_that_cannot_be_markdown_is_serialized_up_front() {
    let list = single_item_single_block();
    assert!(matches!(
        list_handler(true, true, true, &list, None, "*   a", true),
        HandlerOutcome::Serialize
    ));
    // Pure mode writes it as the tight list Markdown has.
    assert_eq!(
        Some("\n\n*   a\n\n".to_string()),
        markdown(list_handler(false, true, true, &list, None, "*   a", true))
    );
    // A list that passes the checks up front is written from its walk.
    assert_eq!(
        Some("\n* a\n".to_string()),
        markdown(list_handler(true, true, true, &tight(), Some("li"), "* a", true))
    );
    assert!(matches!(
        list_handler(true, false, true, &tight(), None, "* a", true),
        HandlerOutcome::Serialize
    ));
}
