//! Lists: when one can be written as Markdown at all, whether it is tight,
//! and how an ordered one numbers its items.

use vstd::prelude::*;

use crate::block_elements::{is_block_element, is_block_name, same_chars};
use crate::chars::is_ascii_digit;
use crate::dom::DomNode;
use crate::element_handler::{HandlerOutcome, Written, written};
use crate::element_handler::headings::{newlines_trimmed, repeated, trim_newlines};
use crate::text::{append_chars, chars_of, string_of};

verus! {

// ---------------------------------------------------------------------------
// The tree around a list.
// ---------------------------------------------------------------------------

/// Whether `node` is an element named `name`.
pub open spec fn is_named(node: DomNode, name: Seq<char>) -> bool {
    match node {
        DomNode::Element { tag, .. } => tag@ == name,
        _ => false,
    }
}

/// Whether `node` is an element at all.
pub open spec fn is_element(node: DomNode) -> bool {
    node is Element
}

/// The children of `node`; a node that is no element has none.
pub open spec fn node_children(node: DomNode) -> Seq<DomNode> {
    match node {
        DomNode::Element { children, .. } => children@,
        _ => seq![],
    }
}

/// The name `li`.
pub open spec fn li_name() -> Seq<char> {
    seq!['l', 'i']
}

/// The name `p`.
pub open spec fn p_name() -> Seq<char> {
    seq!['p']
}

/// The name `ul`.
pub open spec fn ul_name() -> Seq<char> {
    seq!['u', 'l']
}

/// The name `ol`.
pub open spec fn ol_name() -> Seq<char> {
    seq!['o', 'l']
}

/// Whether `item` has a `<p>` among its children.
pub open spec fn has_paragraph_child(item: DomNode) -> bool {
    exists|j: int|
        0 <= j < node_children(item).len() && is_named(#[trigger] node_children(item)[j], p_name())
}

/// Whether `list` is tight: none of its items has a paragraph of its own. One
/// `<p>` under any item makes the whole list loose.
pub open spec fn tight_list(list: DomNode) -> bool {
    forall|i: int|
        0 <= i < node_children(list).len() && is_named(#[trigger] node_children(list)[i], li_name())
            ==> !has_paragraph_child(node_children(list)[i])
}

/// The positions of the `li` children among `children`, in order.
pub open spec fn item_positions(children: Seq<DomNode>) -> Seq<usize>
    decreases children.len(),
{
    if children.len() == 0 {
        seq![]
    } else {
        let before = item_positions(children.drop_last());
        if is_named(children.last(), li_name()) {
            before.push((children.len() - 1) as usize)
        } else {
            before
        }
    }
}

/// How many of `children` are block elements.
pub open spec fn block_children(children: Seq<DomNode>) -> nat
    decreases children.len(),
{
    if children.len() == 0 {
        0
    } else {
        block_children(children.drop_last()) + match children.last() {
            DomNode::Element { tag, .. } => if is_block_name(tag@) {
                1nat
            } else {
                0nat
            },
            _ => 0nat,
        }
    }
}

/// Whether a loose list can be spelled at all: the blank line that makes it
/// loose needs two items to go between, or two blocks of the one item.
pub open spec fn loose_list_writable(list: DomNode) -> bool {
    let children = node_children(list);
    let items = item_positions(children);
    &&& items.len() >= 1
    &&& (items.len() >= 2 || block_children(node_children(children[items[0] as int])) > 1)
}

/// Whether every child of `list` is an item or no element at all (the text of
/// whitespace between items).
pub open spec fn only_items(list: DomNode) -> bool {
    forall|i: int|
        0 <= i < node_children(list).len() ==> (!is_element(#[trigger] node_children(list)[i])
            || is_named(node_children(list)[i], li_name()))
}

/// The list `node` sits in, given its parent: the parent where that is a
/// `<ul>` or an `<ol>`.
pub open spec fn list_around(parent: Option<DomNode>) -> Option<DomNode> {
    match parent {
        Some(p) => if is_named(p, ul_name()) || is_named(p, ol_name()) {
            Some(p)
        } else {
            None
        },
        None => None,
    }
}

/// Whether blocks written directly inside `node`, whose parent is `parent`,
/// have to land on consecutive lines: `node` is a tight list, or an item of
/// one.
pub open spec fn tight_blocks(node: DomNode, parent: Option<DomNode>) -> bool {
    if is_named(node, ul_name()) || is_named(node, ol_name()) {
        tight_list(node)
    } else if is_named(node, li_name()) {
        match list_around(parent) {
            Some(list) => tight_list(list),
            None => false,
        }
    } else {
        false
    }
}

/// Whether `tag` is `name`, given as an array of characters.
fn tag_is(tag: &String, name: &[char]) -> (r: bool)
    ensures
        r == (tag@ == name@),
{
    same_chars(chars_of(tag.as_str()).as_slice(), name)
}

/// Whether `node` is an element named `name`.
fn node_is(node: &DomNode, name: &[char]) -> (r: bool)
    ensures
        r == is_named(*node, name@),
{
    match node {
        DomNode::Element { tag, .. } => tag_is(tag, name),
        _ => false,
    }
}

/// The children of `node`.
fn children_of(node: &DomNode) -> (r: &[DomNode])
    ensures
        r@ == node_children(*node),
{
    match node {
        DomNode::Element { children, .. } => children.as_slice(),
        _ => {
            let empty: &[DomNode] = &[];
            assert(empty@ =~= Seq::<DomNode>::empty());
            empty
        },
    }
}

/// Whether this `<ul>` or `<ol>` is *tight*, which CommonMark renders with
/// each item's text bare rather than wrapped in a `<p>`.
///
/// The choice belongs to the list rather than to any one item — one blank line
/// anywhere in a list makes the whole list loose — so a single `<p>` under any
/// item settles it for all of them.
pub fn is_tight_list(list: &DomNode) -> (r: bool)
    ensures
        r == tight_list(*list),
{
    let li: [char; 2] = ['l', 'i'];
    let p: [char; 1] = ['p'];
    assert(li@ =~= li_name());
    assert(p@ =~= p_name());
    let children = children_of(list);
    let mut i: usize = 0;
    while i < children.len()
        invariant
            children@ == node_children(*list),
            li@ == li_name(),
            p@ == p_name(),
            i <= children@.len(),
            forall|k: int|
                0 <= k < i && is_named(#[trigger] children@[k], li_name())
                    ==> !has_paragraph_child(children@[k]),
        decreases children@.len() - i,
    {
        if node_is(&children[i], &li) {
            let grandchildren = children_of(&children[i]);
            let mut j: usize = 0;
            while j < grandchildren.len()
                invariant
                    i < children@.len(),
                    children@ == node_children(*list),
                    is_named(children@[i as int], li_name()),
                    grandchildren@ == node_children(children@[i as int]),
                    p@ == p_name(),
                    j <= grandchildren@.len(),
                    forall|m: int| 0 <= m < j ==> !is_named(#[trigger] grandchildren@[m], p_name()),
                decreases grandchildren@.len() - j,
            {
                if node_is(&grandchildren[j], &p) {
                    assert(has_paragraph_child(children@[i as int]));
                    assert(!tight_list(*list));
                    return false;
                }
                j += 1;
            }
        }
        i += 1;
    }
    true
}

/// The positions of the `<li>` children of a list, ignoring the text nodes of
/// whitespace between them.
pub fn items(list: &DomNode) -> (r: Vec<usize>)
    ensures
        r@ == item_positions(node_children(*list)),
{
    let li: [char; 2] = ['l', 'i'];
    assert(li@ =~= li_name());
    let children = children_of(list);
    let mut r: Vec<usize> = Vec::new();
    let mut i: usize = 0;
    assert(children@.take(0) =~= Seq::<DomNode>::empty());
    while i < children.len()
        invariant
            li@ == li_name(),
            i <= children@.len(),
            r@ == item_positions(children@.take(i as int)),
        decreases children@.len() - i,
    {
        let ghost t = children@.take(i + 1 as int);
        assert(t.drop_last() =~= children@.take(i as int));
        assert(t.last() == children@[i as int]);
        if node_is(&children[i], &li) {
            r.push(i);
        }
        i += 1;
    }
    assert(children@.take(children@.len() as int) =~= children@);
    r
}

/// How many blocks this list item holds, a blank line's worth of room lying
/// between each pair of them.
pub fn block_child_count(item: &DomNode) -> (r: usize)
    ensures
        r == block_children(node_children(*item)),
{
    let children = children_of(item);
    let mut count: usize = 0;
    let mut i: usize = 0;
    assert(children@.take(0) =~= Seq::<DomNode>::empty());
    while i < children.len()
        invariant
            i <= children@.len(),
            count == block_children(children@.take(i as int)),
            count <= i,
        decreases children@.len() - i,
    {
        let ghost t = children@.take(i + 1 as int);
        assert(t.drop_last() =~= children@.take(i as int));
        assert(t.last() == children@[i as int]);
        match &children[i] {
            DomNode::Element { tag, .. } => {
                if is_block_element(chars_of(tag.as_str()).as_slice()) {
                    count += 1;
                }
            },
            _ => {},
        }
        i += 1;
    }
    assert(children@.take(children@.len() as int) =~= children@);
    count
}

/// Whether a loose list can be spelled at all. The blank line that makes it
/// loose needs somewhere to go: between two items, or between two blocks of
/// one item. A single item holding a single block offers neither, leaving the
/// tight list — which means something else — as the only Markdown there is.
pub fn loose_list_is_writable(list: &DomNode) -> (r: bool)
    ensures
        r == loose_list_writable(*list),
{
    let positions = items(list);
    if positions.len() == 0 {
        return false;
    }
    proof {
        lemma_item_positions_in_bounds(node_children(*list));
    }
    let children = children_of(list);
    positions.len() >= 2 || block_child_count(&children[positions[0]]) > 1
}

/// Every item position lies among the children.
proof fn lemma_item_positions_in_bounds(children: Seq<DomNode>)
    ensures
        forall|k: int|
            0 <= k < item_positions(children).len() ==> #[trigger] item_positions(children)[k]
                < children.len(),
    decreases children.len(),
{
    if children.len() > 0 {
        lemma_item_positions_in_bounds(children.drop_last());
        let before = item_positions(children.drop_last());
        assert forall|k: int| 0 <= k < item_positions(children).len() implies #[trigger] item_positions(children)[k] < children.len() by {
            if k < before.len() {
                assert(item_positions(children)[k] == before[k]);
            }
        }
    }
}

/// The `<ul>` or `<ol>` an item belongs to, given the item's parent, if it is
/// in one at all.
pub fn enclosing_list(parent: Option<&DomNode>) -> (r: Option<&DomNode>)
    ensures
        match r {
            Some(list) => list_around(match parent {
                Some(p) => Some(*p),
                None => None,
            }) == Some(*list),
            None => list_around(match parent {
                Some(p) => Some(*p),
                None => None,
            }) is None,
        },
{
    let ul: [char; 2] = ['u', 'l'];
    let ol: [char; 2] = ['o', 'l'];
    assert(ul@ =~= ul_name());
    assert(ol@ =~= ol_name());
    match parent {
        Some(p) => if node_is(p, &ul) || node_is(p, &ol) {
            Some(p)
        } else {
            None
        },
        None => None,
    }
}

/// Whether blocks written directly inside `node` have to land on consecutive
/// lines, with no blank line between them: `node` is a tight list, or an item
/// of one. `parent` is the node's parent, where it has one.
///
/// A blank line between two items, or between two blocks of one item, is
/// exactly what spells a *loose* list, so a tight one can hold neither.
pub fn holds_tight_blocks(node: &DomNode, parent: Option<&DomNode>) -> (r: bool)
    ensures
        r == tight_blocks(
            *node,
            match parent {
                Some(p) => Some(*p),
                None => None,
            },
        ),
{
    let ul: [char; 2] = ['u', 'l'];
    let ol: [char; 2] = ['o', 'l'];
    let li: [char; 2] = ['l', 'i'];
    assert(ul@ =~= ul_name());
    assert(ol@ =~= ol_name());
    assert(li@ =~= li_name());
    if node_is(node, &ul) || node_is(node, &ol) {
        is_tight_list(node)
    } else if node_is(node, &li) {
        match enclosing_list(parent) {
            Some(list) => is_tight_list(list),
            None => false,
        }
    } else {
        false
    }
}

// ---------------------------------------------------------------------------
// What the handler decides.
// ---------------------------------------------------------------------------

/// The number of attributes a list may carry and still be written as
/// Markdown, given the name of its first attribute: a `start` says where an
/// ordered list's numbering begins, which Markdown can spell; nothing else
/// can be.
pub open spec fn translatable_attributes(first_attribute: Option<Seq<char>>) -> nat {
    if first_attribute == Some(seq!['s', 't', 'a', 'r', 't']) {
        1
    } else {
        0
    }
}

/// How many attributes a list may carry and still be written as Markdown in
/// faithful mode, given the name of its first attribute.
pub fn list_attribute_allowance(first_attribute: Option<&str>) -> (n: usize)
    ensures
        n == translatable_attributes(
            match first_attribute {
                Some(a) => Some(a@),
                None => None,
            },
        ),
{
    match first_attribute {
        Some(name) => {
            let start: [char; 5] = ['s', 't', 'a', 'r', 't'];
            assert(start@ =~= seq!['s', 't', 'a', 'r', 't']);
            if same_chars(chars_of(name).as_slice(), &start) {
                1
            } else {
                0
            }
        },
        None => 0,
    }
}

/// Whether, in faithful mode, a list has to be written as HTML before its
/// items are even walked: its attributes say more than Markdown can, its
/// content was not all translated, some child is an element but no item, or
/// it is loose and a loose list has nowhere to put its blank line.
pub open spec fn list_serialized_up_front(
    is_faithful: bool,
    attributes_translatable: bool,
    markdown_translated: bool,
    list: DomNode,
) -> bool {
    is_faithful && (!attributes_translatable || !markdown_translated || !only_items(list) || (
    !tight_list(list) && !loose_list_writable(list)))
}

/// Whether every child of `list` is an item or no element at all.
fn children_are_items(list: &DomNode) -> (r: bool)
    ensures
        r == only_items(*list),
{
    let li: [char; 2] = ['l', 'i'];
    assert(li@ =~= li_name());
    let children = children_of(list);
    let mut i: usize = 0;
    while i < children.len()
        invariant
            children@ == node_children(*list),
            li@ == li_name(),
            i <= children@.len(),
            forall|k: int|
                0 <= k < i ==> (!is_element(#[trigger] children@[k]) || is_named(
                    children@[k],
                    li_name(),
                )),
        decreases children@.len() - i,
    {
        let is_item_or_text = match &children[i] {
            DomNode::Element { .. } => node_is(&children[i], &li),
            _ => true,
        };
        if !is_item_or_text {
            assert(!(!is_element(children@[i as int]) || is_named(children@[i as int], li_name())));
            return false;
        }
        i += 1;
    }
    true
}

/// Whether a list has to be written as HTML before its items are walked;
/// see [`list_serialized_up_front`]. `attributes_translatable` says whether
/// the list carries no more attributes than [`list_attribute_allowance`]
/// allows, and `markdown_translated` whether the element was translated as
/// Markdown.
pub fn list_must_serialize(
    is_faithful: bool,
    attributes_translatable: bool,
    markdown_translated: bool,
    list: &DomNode,
) -> (r: bool)
    ensures
        r == list_serialized_up_front(is_faithful, attributes_translatable, markdown_translated, *list),
{
    if !is_faithful {
        return false;
    }
    // All children must be translated as Markdown, and all children must be
    // items; text nodes between them, generally whitespace, are ignored.
    if !attributes_translatable || !markdown_translated || !children_are_items(list) {
        return true;
    }
    // A loose list needs somewhere to put the blank line that spells it.
    // Where there is nowhere, the list survives only as HTML: the tight list
    // is all the syntax has, and it means something else.
    !is_tight_list(list) && !loose_list_is_writable(list)
}

/// What a list writes once its items were walked into `walked`, with
/// `translated` saying whether all of them were translated as Markdown: HTML
/// where faithful mode met an untranslated item; nothing where the items
/// wrote nothing; otherwise the items between line endings, one where the
/// list sits in an item of another and a blank line where it does not.
pub open spec fn list_written(
    is_faithful: bool,
    parent_is_item: bool,
    walked: Seq<char>,
    translated: bool,
) -> Written {
    if is_faithful && !translated {
        Written::Html
    } else {
        let trimmed = newlines_trimmed(walked);
        if trimmed.len() == 0 {
            Written::Nothing
        } else if parent_is_item {
            Written::Markdown(seq!['\n'] + trimmed + seq!['\n'])
        } else {
            Written::Markdown(seq!['\n', '\n'] + trimmed + seq!['\n', '\n'])
        }
    }
}

/// What a `<ul>` or `<ol>` writes once its items were walked; see
/// [`list_written`]. `parent_tag` is the name of the list's parent, where
/// that is an element, and `walked` and `translated` what walking the items
/// gave.
pub fn list_walk_written(is_faithful: bool, parent_tag: Option<&str>, walked: &str, translated: bool) -> (r: HandlerOutcome)
    ensures
        written(r) == list_written(
            is_faithful,
            match parent_tag {
                Some(t) => t@ == li_name(),
                None => false,
            },
            walked@,
            translated,
        ),
{
    if is_faithful && !translated {
        return HandlerOutcome::Serialize;
    }
    let li: [char; 2] = ['l', 'i'];
    assert(li@ =~= li_name());
    let is_parent_li = match parent_tag {
        Some(tag) => same_chars(chars_of(tag).as_slice(), &li),
        None => false,
    };
    let text = chars_of(walked);
    let trimmed = trim_newlines(text.as_slice());
    if trimmed.len() == 0 {
        return HandlerOutcome::Skip;
    }
    let mut out: Vec<char> = Vec::new();
    if is_parent_li {
        out.push('\n');
        append_chars(&mut out, trimmed);
        out.push('\n');
        assert(out@ =~= seq!['\n'] + trimmed@ + seq!['\n']);
    } else {
        out.push('\n');
        out.push('\n');
        append_chars(&mut out, trimmed);
        out.push('\n');
        out.push('\n');
        assert(out@ =~= seq!['\n', '\n'] + trimmed@ + seq!['\n', '\n']);
    }
    HandlerOutcome::Markdown(string_of(out.as_slice()))
}

/// What a `<ul>` or `<ol>` writes: HTML where, in faithful mode, it has to be
/// serialized before its items are even walked
/// ([`list_serialized_up_front`]); otherwise what its walked items give
/// ([`list_written`]).
///
/// `attributes_translatable` says whether the list carries no more attributes
/// than [`list_attribute_allowance`] allows and `markdown_translated` whether
/// the element was translated as Markdown; `parent_tag` is the name of the
/// list's parent, where that is an element, and `walked` and `translated`
/// what walking the items gave, which is not looked at where the list is
/// serialized up front.
pub fn list_handler(
    is_faithful: bool,
    attributes_translatable: bool,
    markdown_translated: bool,
    list: &DomNode,
    parent_tag: Option<&str>,
    walked: &str,
    translated: bool,
) -> (r: HandlerOutcome)
    ensures
        written(r) == if list_serialized_up_front(
            is_faithful,
            attributes_translatable,
            markdown_translated,
            *list,
        ) {
            Written::Html
        } else {
            list_written(
                is_faithful,
                match parent_tag {
                    Some(t) => t@ == li_name(),
                    None => false,
                },
                walked@,
                translated,
            )
        },
{
    if list_must_serialize(is_faithful, attributes_translatable, markdown_translated, list) {
        return HandlerOutcome::Serialize;
    }
    list_walk_written(is_faithful, parent_tag, walked, translated)
}

// ---------------------------------------------------------------------------
// Ordered lists.
// ---------------------------------------------------------------------------

/// The value of the decimal digits `ds`.
pub open spec fn digits_value(ds: Seq<char>) -> int
    decreases ds.len(),
{
    if ds.len() == 0 {
        0
    } else {
        10 * digits_value(ds.drop_last()) + (ds.last() as u32 - '0' as u32)
    }
}

/// The value of `s` as `str::parse::<i32>` reads it: an optional `+` or `-`
/// and then one or more ASCII digits, and nothing else, whose value fits in an
/// `i32`.
pub open spec fn parsed_i32(s: Seq<char>) -> Option<i32> {
    let negative = s.len() > 0 && s[0] == '-';
    let ds = if s.len() > 0 && (s[0] == '+' || s[0] == '-') {
        s.drop_first()
    } else {
        s
    };
    let value = if negative {
        -digits_value(ds)
    } else {
        digits_value(ds)
    };
    if ds.len() > 0 && (forall|i: int| 0 <= i < ds.len() ==> is_ascii_digit(#[trigger] ds[i]))
        && i32::MIN <= value <= i32::MAX {
        Some(value as i32)
    } else {
        None
    }
}

/// `s` read as a decimal `i32`.
///
/// Calls `str::parse::<i32>`, which the documentation of `i32::from_str_radix`
/// describes: an optional `+` or `-` sign followed by digits only, anything
/// else — whitespace included — and a value out of range being an error.
#[verifier::external_body]
fn parse_i32(s: &str) -> (r: Option<i32>)
    ensures
        r == parsed_i32(s@),
{
    s.parse::<i32>().ok()
}

/// Where an ordered list's numbering starts, given the value its `start`
/// attribute was read as: one where there is none or it does not read as a
/// number, and never below one.
pub open spec fn start_from(parsed: Option<Option<i32>>) -> nat {
    match parsed {
        Some(Some(v)) => if v >= 1 {
            v as nat
        } else {
            1
        },
        _ => 1,
    }
}

/// Where the numbering of an `<ol>` whose `start` attribute holds `start`
/// begins: the attribute read as an `i32`, or one where it is missing or not
/// a number, and never below one.
pub fn ol_start_index(start: Option<&str>) -> (n: usize)
    ensures
        n == start_from(
            match start {
                Some(s) => Some(parsed_i32(s@)),
                None => None,
            },
        ),
        1 <= n <= i32::MAX,
{
    match start {
        Some(value) => match parse_i32(value) {
            Some(v) => if v >= 1 {
                v as usize
            } else {
                1
            },
            None => 1,
        },
        None => 1,
    }
}

/// How many of `is_item` are true.
pub open spec fn item_count(is_item: Seq<bool>) -> nat
    decreases is_item.len(),
{
    if is_item.len() == 0 {
        0
    } else {
        item_count(is_item.drop_last()) + if is_item.last() {
            1nat
        } else {
            0nat
        }
    }
}

/// How the children of an `<ol>` are numbered.
pub struct OlNumbering {
    /// For each child, its number where it is an item.
    pub numbers: Vec<Option<usize>>,
    /// The number of the last item, which sets the width of every marker.
    pub highest_index: usize,
}

/// Numbers the items among the children of an `<ol>`: `is_item` says which
/// children are items, `start_idx` is the first number. Each item gets the
/// next number in turn; the highest is the one the last item gets, one less
/// than `start_idx` where there is no item.
pub fn number_ol_items(is_item: &[bool], start_idx: usize) -> (r: OlNumbering)
    requires
        1 <= start_idx,
        start_idx + is_item@.len() <= usize::MAX,
    ensures
        r.numbers@.len() == is_item@.len(),
        forall|i: int|
            0 <= i < is_item@.len() ==> #[trigger] r.numbers@[i] == if is_item@[i] {
                Some((start_idx + item_count(is_item@.take(i))) as usize)
            } else {
                None
            },
        r.highest_index == start_idx + item_count(is_item@) - 1,
{
    let mut numbers: Vec<Option<usize>> = Vec::new();
    let mut curr: usize = start_idx - 1;
    let mut i: usize = 0;
    assert(is_item@.take(0) =~= Seq::<bool>::empty());
    while i < is_item.len()
        invariant
            1 <= start_idx,
            start_idx + is_item@.len() <= usize::MAX,
            i <= is_item@.len(),
            numbers@.len() == i,
            curr == start_idx - 1 + item_count(is_item@.take(i as int)),
            item_count(is_item@.take(i as int)) <= i,
            forall|k: int|
                0 <= k < i ==> #[trigger] numbers@[k] == if is_item@[k] {
                    Some((start_idx + item_count(is_item@.take(k))) as usize)
                } else {
                    None
                },
        decreases is_item@.len() - i,
    {
        let ghost t = is_item@.take(i + 1 as int);
        assert(t.drop_last() =~= is_item@.take(i as int));
        if is_item[i] {
            curr += 1;
            numbers.push(Some(curr));
        } else {
            numbers.push(None);
        }
        i += 1;
    }
    assert(is_item@.take(is_item@.len() as int) =~= is_item@);
    OlNumbering { numbers, highest_index: curr }
}

/// How many line endings an `<ol>` may put between its blocks: one where it is
/// tight, since a blank line between two items is what makes a list loose,
/// and two where it is not.
pub fn ol_boundary_newlines(list: &DomNode) -> (n: usize)
    ensures
        n == if tight_list(*list) {
            1usize
        } else {
            2usize
        },
{
    if is_tight_list(list) {
        1
    } else {
        2
    }
}

/// The digit for `d`, below ten.
pub open spec fn digit_char(d: nat) -> char {
    ((d + 48) as u8) as char
}

/// The decimal numeral of `n`, without leading zeros.
pub open spec fn decimal(n: nat) -> Seq<char>
    decreases n,
{
    if n < 10 {
        seq![digit_char(n)]
    } else {
        decimal(n / 10).push(digit_char(n % 10))
    }
}

/// The decimal numeral of `n`.
pub fn decimal_chars(n: usize) -> (r: Vec<char>)
    ensures
        r@ == decimal(n as nat),
    decreases n,
{
    let digit = ((n % 10) as u8 + 48) as char;
    if n < 10 {
        let mut r: Vec<char> = Vec::new();
        r.push(digit);
        assert(r@ =~= seq![digit_char(n as nat)]);
        r
    } else {
        let mut r = decimal_chars(n / 10);
        r.push(digit);
        r
    }
}

/// How many digits the decimal numeral of `num` has.
pub fn digits(num: usize) -> (d: usize)
    ensures
        d == decimal(num as nat).len(),
        1 <= d <= 20,
{
    let mut d: usize = 1;
    let mut n: usize = num;
    proof {
        lemma_decimal_len_bound(num as nat);
    }
    while n >= 10
        invariant
            1 <= d,
            d + decimal(n as nat).len() - 1 == decimal(num as nat).len(),
            decimal(num as nat).len() <= 20,
        decreases n,
    {
        proof {
            lemma_decimal_len_bound(n as nat);
        }
        n = n / 10;
        d += 1;
    }
    d
}

/// A numeral of a number is no longer than twenty digits while the number
/// fits in 64 bits, and is at least one digit long.
proof fn lemma_decimal_len_bound(n: nat)
    ensures
        1 <= decimal(n).len(),
        n <= u64::MAX ==> decimal(n).len() <= 20,
        n < 10 ==> decimal(n).len() == 1,
        n >= 10 ==> decimal(n).len() == decimal(n / 10).len() + 1,
    decreases n,
{
    if n >= 10 {
        lemma_decimal_len_bound(n / 10);
        if n <= u64::MAX {
            lemma_decimal_len_pow(n);
        }
    }
}

/// The numeral of a number below `10^k` has at most `k` digits; here for
/// the bound of 64 bits, `10^20`.
proof fn lemma_decimal_len_pow(n: nat)
    requires
        n <= u64::MAX,
    ensures
        decimal(n).len() <= 20,
{
    lemma_decimal_len_below(n, 20);
}

/// Ten to the `k`.
pub open spec fn ten_to(k: nat) -> nat
    decreases k,
{
    if k == 0 {
        1
    } else {
        10 * ten_to((k - 1) as nat)
    }
}

/// A number below `10^k` has at most `k` digits.
proof fn lemma_decimal_len_below(n: nat, k: nat)
    requires
        k >= 1,
        n < ten_to(k) || (k == 20 && n <= u64::MAX),
    ensures
        decimal(n).len() <= k,
    decreases n,
{
    if k == 20 {
        reveal_with_fuel(ten_to, 21);
        assert(ten_to(20) == 100000000000000000000nat);
    }
    if n >= 10 {
        assert(k >= 2) by {
            if k == 1 {
                assert(ten_to(1) == 10);
            }
        }
        assert(n / 10 < ten_to((k - 1) as nat)) by {
            assert(ten_to(k) == 10 * ten_to((k - 1) as nat));
        }
        lemma_decimal_len_below(n / 10, (k - 1) as nat);
    }
}

/// The number of digits is what a numeral of that many digits spans:
/// `10^(d-1) <= n < 10^d`, zero alone having one digit.
pub proof fn lemma_digits_count_the_numeral(n: nat)
    ensures
        n < ten_to(decimal(n).len()),
        n >= 1 ==> ten_to((decimal(n).len() - 1) as nat) <= n,
    decreases n,
{
    lemma_decimal_len_bound(n);
    if n >= 10 {
        lemma_digits_count_the_numeral(n / 10);
        let d = decimal(n / 10).len();
        assert(ten_to(d + 1) == 10 * ten_to(d));
        assert(ten_to(d) == 10 * ten_to((d - 1) as nat));
    } else {
        assert(ten_to(0) == 1);
        assert(ten_to(1) == 10 * ten_to(0));
    }
}

/// A smaller number never has more digits.
pub proof fn lemma_digits_monotonic(a: nat, b: nat)
    requires
        a <= b,
    ensures
        decimal(a).len() <= decimal(b).len(),
    decreases b,
{
    lemma_decimal_len_bound(a);
    lemma_decimal_len_bound(b);
    if a >= 10 {
        lemma_digits_monotonic(a / 10, b / 10);
    }
}

/// The marker an item numbered `index` gets in a list whose highest number is
/// `highest_index`: a line ending, the numeral, a `.`, and enough spaces —
/// `number_spacing` more than the difference in width — that every item's
/// text starts in the same column.
pub open spec fn ol_marker(number_spacing: nat, index: nat, highest_index: nat) -> Seq<char> {
    seq!['\n'] + decimal(index) + seq!['.'] + repeated(
        ' ',
        (number_spacing + decimal(highest_index).len() - decimal(index).len()) as nat,
    )
}

/// `content` without the line endings at its start.
pub open spec fn leading_newlines_trimmed(content: Seq<char>) -> Seq<char> {
    content.skip(crate::chars::span(content, crate::chars::CharClass::Is('\n')) as int)
}

/// Whether `out` is what the item numbered `index`, with Markdown `content`,
/// is written as: the marker, then the content with its line endings at the
/// start trimmed and handed to `indent` with the width of the marker less
/// its line ending.
pub open spec fn ol_item_written<F: Fn(Vec<char>, usize) -> Vec<char>>(
    indent: F,
    number_spacing: nat,
    content: Seq<char>,
    index: nat,
    highest_index: nat,
    out: Seq<char>,
) -> bool {
    exists|text: Vec<char>, indented: Vec<char>|
        {
            &&& text@ == leading_newlines_trimmed(content)
            &&& #[trigger] indent.ensures(
                (text, (ol_marker(number_spacing, index, highest_index).len() - 1) as usize),
                indented,
            )
            &&& out == ol_marker(number_spacing, index, highest_index) + indented@
        }
}

/// Writes the marker of the item numbered `index` in front of `content`, the
/// item's Markdown; `highest_index` is the highest number in the list and
/// `number_spacing` the spaces asked for after the widest numeral.
///
/// The item's content has its line endings at the start trimmed, and every
/// line after its first indented to the column its text starts in; `indent`
/// does the indenting, given the text and the width of the marker.
pub fn add_ol_li_marker<F: Fn(Vec<char>, usize) -> Vec<char>>(
    number_spacing: u8,
    content: &str,
    index: usize,
    highest_index: usize,
    indent: &F,
) -> (r: String)
    requires
        index <= highest_index,
        forall|text: Vec<char>, width: usize| #[trigger] indent.requires((text, width)),
    ensures
        ol_item_written(
            *indent,
            number_spacing as nat,
            content@,
            index as nat,
            highest_index as nat,
            r@,
        ),
{
    let index_str = decimal_chars(index);
    proof {
        lemma_digits_monotonic(index as nat, highest_index as nat);
    }
    let spacing = number_spacing as usize + digits(highest_index) - index_str.len();
    let mut marker: Vec<char> = Vec::new();
    marker.push('\n');
    append_chars(&mut marker, index_str.as_slice());
    marker.push('.');
    let mut k: usize = 0;
    while k < spacing
        invariant
            k <= spacing,
            marker@ == seq!['\n'] + decimal(index as nat) + seq!['.'] + repeated(' ', k as nat),
        decreases spacing - k,
    {
        marker.push(' ');
        k += 1;
        assert(repeated(' ', k as nat) =~= repeated(' ', (k - 1) as nat).push(' '));
    }
    let text_chars = chars_of(content);
    let start = crate::chars::run_len(text_chars.as_slice(), crate::chars::CharClass::Is('\n'));
    proof {
        crate::chars::lemma_span(text_chars@, crate::chars::CharClass::Is('\n'));
    }
    let mut text: Vec<char> = Vec::new();
    append_chars(&mut text, vstd::slice::slice_subrange(text_chars.as_slice(), start, text_chars.len()));
    assert(text@ =~= leading_newlines_trimmed(content@));
    let width = index_str.len() + 1 + spacing;
    let ghost text_view = text@;
    let ghost text_copy = text;
    assert(marker@ == ol_marker(number_spacing as nat, index as nat, highest_index as nat));
    assert(width == ol_marker(number_spacing as nat, index as nat, highest_index as nat).len() - 1);
    let indented = indent(text, width);
    let mut out: Vec<char> = Vec::new();
    append_chars(&mut out, marker.as_slice());
    append_chars(&mut out, indented.as_slice());
    assert(text_copy@ == text_view);
    assert(indent.ensures((text_copy, width), indented));
    let r = string_of(out.as_slice());
    assert(r@ == ol_marker(number_spacing as nat, index as nat, highest_index as nat) + indented@);
    r
}

/// What a child of an `<ol>` was written as by its own handler, and whether
/// it is an item.
pub struct ListChildContent {
    /// The child's Markdown.
    pub text: String,
    /// Whether the child is an `<li>`.
    pub is_li: bool,
    /// Whether the child was translated as Markdown.
    pub translated: bool,
}

/// The children a handler wrote something for, in order.
pub open spec fn handled(children: Seq<Option<ListChildContent>>) -> Seq<ListChildContent>
    decreases children.len(),
{
    if children.len() == 0 {
        seq![]
    } else {
        let before = handled(children.drop_last());
        match children.last() {
            Some(c) => before.push(c),
            None => before,
        }
    }
}

/// How many of `kept` are items.
pub open spec fn items_among(kept: Seq<ListChildContent>) -> nat
    decreases kept.len(),
{
    if kept.len() == 0 {
        0
    } else {
        items_among(kept.drop_last()) + if kept.last().is_li {
            1nat
        } else {
            0nat
        }
    }
}

/// Whether every child that was written was translated as Markdown.
pub open spec fn all_translated(children: Seq<Option<ListChildContent>>) -> bool {
    forall|i: int|
        0 <= i < children.len() ==> ((#[trigger] children[i]) matches Some(c) ==> c.translated)
}

/// Whether `acc` and `rendered` are the steps of writing the blocks `kept`:
/// each item rendered with its marker — numbered `start`, `start + 1`, … in
/// turn, `highest_index` setting the width — each other block as it is, and
/// each rendered block joined by `append_block` onto what came before, with at
/// most `boundary` line endings between them.
pub open spec fn ol_blocks_built<I: Fn(Vec<char>, usize) -> Vec<char>, J: Fn(String, String, usize) -> String>(
    kept: Seq<ListChildContent>,
    start: nat,
    highest_index: nat,
    number_spacing: nat,
    boundary: usize,
    indent: I,
    append_block: J,
    acc: Seq<String>,
    rendered: Seq<String>,
) -> bool {
    &&& acc.len() == kept.len() + 1
    &&& rendered.len() == kept.len()
    &&& acc[0]@ == Seq::<char>::empty()
    &&& forall|j: int|
        0 <= j < kept.len() ==> if kept[j].is_li {
            ol_item_written(
                indent,
                number_spacing,
                kept[j].text@,
                start + items_among(kept.take(j)),
                highest_index,
                #[trigger] rendered[j]@,
            )
        } else {
            rendered[j]@ == kept[j].text@
        }
    &&& forall|j: int|
        0 <= j < kept.len() ==> append_block.ensures((acc[j], #[trigger] rendered[j], boundary), acc[j + 1])
}

/// Whether `out` is the Markdown of an `<ol>` whose children's handlers wrote
/// `children`, numbered from `start`: the blocks of [`ol_blocks_built`], the
/// highest number being that of the last item.
pub open spec fn ol_content_built<I: Fn(Vec<char>, usize) -> Vec<char>, J: Fn(String, String, usize) -> String>(
    children: Seq<Option<ListChildContent>>,
    start: nat,
    number_spacing: nat,
    boundary: usize,
    indent: I,
    append_block: J,
    out: Seq<char>,
) -> bool {
    let kept = handled(children);
    exists|acc: Seq<String>, rendered: Seq<String>|
        {
            &&& #[trigger] ol_blocks_built(
                kept,
                start,
                (start + items_among(kept) - 1) as nat,
                number_spacing,
                boundary,
                indent,
                append_block,
                acc,
                rendered,
            )
            &&& out == acc[kept.len() as int]@
        }
}

/// One more child adds itself to the handled ones where it was written, and
/// counts as an item where it is one.
proof fn lemma_handled_step(children: Seq<Option<ListChildContent>>, i: int)
    requires
        0 <= i < children.len(),
    ensures
        handled(children.take(i + 1)) == match children[i] {
            Some(c) => handled(children.take(i)).push(c),
            None => handled(children.take(i)),
        },
        items_among(handled(children.take(i + 1))) == items_among(handled(children.take(i)))
            + match children[i] {
            Some(c) => if c.is_li {
                1nat
            } else {
                0nat
            },
            None => 0nat,
        },
{
    let t = children.take(i + 1);
    assert(t.drop_last() =~= children.take(i));
    assert(t.last() == children[i]);
    if let Some(c) = children[i] {
        assert(handled(children.take(i)).push(c).drop_last() =~= handled(children.take(i)));
    }
}

/// The items among the handled children of a prefix are no more than those
/// of the whole, and no more than the prefix's length.
proof fn lemma_items_in_prefix(children: Seq<Option<ListChildContent>>, i: int)
    requires
        0 <= i <= children.len(),
    ensures
        items_among(handled(children.take(i))) <= items_among(handled(children)),
        items_among(handled(children)) <= children.len(),
    decreases children.len(),
{
    if children.len() > 0 {
        lemma_items_in_prefix(children.drop_last(), if i == children.len() { i - 1 } else { i });
        assert(children.take(children.len() - 1) =~= children.drop_last());
        assert(children.take(children.len() as int) =~= children);
        lemma_handled_step(children, children.len() - 1);
        if i < children.len() {
            assert(children.take(i) =~= children.drop_last().take(i));
        } else {
            assert(children.take(i) =~= children);
        }
    }
}

/// Writes the Markdown of an `<ol>` from what its children's handlers wrote:
/// `children` holds one entry per child, `None` where its handler wrote
/// nothing, and `start` is the list's `start` attribute.
///
/// Children that wrote nothing are left out. Each item gets its marker, the
/// items numbered in turn from the start; the widest numeral, that of the last
/// item, sets the width of every marker. The blocks are joined by
/// `append_block`, with at most one line ending between them in a tight list
/// and two in a loose one. The second part of the result says whether every
/// child was translated as Markdown.
pub fn get_ol_content<I: Fn(Vec<char>, usize) -> Vec<char>, J: Fn(String, String, usize) -> String>(
    children: &[Option<ListChildContent>],
    start: Option<&str>,
    list: &DomNode,
    number_spacing: u8,
    indent: &I,
    append_block: &J,
) -> (r: (String, bool))
    requires
        children@.len() <= usize::MAX - i32::MAX,
        forall|text: Vec<char>, width: usize| #[trigger] indent.requires((text, width)),
        forall|contents: String, block: String, newlines: usize| #[trigger] append_block.requires(
            (contents, block, newlines),
        ),
    ensures
        r.1 == all_translated(children@),
        ol_content_built(
            children@,
            start_from(
                match start {
                    Some(s) => Some(parsed_i32(s@)),
                    None => None,
                },
            ),
            number_spacing as nat,
            if tight_list(*list) {
                1usize
            } else {
                2usize
            },
            *indent,
            *append_block,
            r.0@,
        ),
{
    // `start_idx` is one-based, not zero-based.
    let start_idx = ol_start_index(start);
    let ghost kept = handled(children@);

    // Count the items among the children that were written, and whether all
    // of those were translated.
    let mut li_count: usize = 0;
    let mut all_translated_so_far = true;
    let mut i: usize = 0;
    assert(children@.take(0) =~= Seq::<Option<ListChildContent>>::empty());
    while i < children.len()
        invariant
            i <= children@.len(),
            children@.len() <= usize::MAX - i32::MAX,
            li_count == items_among(handled(children@.take(i as int))),
            li_count <= i,
            all_translated_so_far == all_translated(children@.take(i as int)),
        decreases children@.len() - i,
    {
        let ghost t = children@.take(i + 1 as int);
        assert(t.drop_last() =~= children@.take(i as int));
        proof {
            lemma_handled_step(children@, i as int);
        }
        match &children[i] {
            Some(c) => {
                if c.is_li {
                    li_count += 1;
                }
                if !c.translated {
                    all_translated_so_far = false;
                }
            },
            None => {},
        }
        proof {
            if all_translated(children@.take(i as int)) && (children@[i as int] matches Some(c)
                ==> c.translated) {
                assert forall|k: int| 0 <= k < t.len() implies ((#[trigger] t[k]) matches Some(c)
                    ==> c.translated) by {
                    if k < i {
                        assert(t[k] == children@.take(i as int)[k]);
                    }
                }
            }
            if !all_translated(children@.take(i as int)) {
                let k = choose|k: int|
                    0 <= k < i && !((#[trigger] children@.take(i as int)[k]) matches Some(c)
                        ==> c.translated);
                assert(t[k] == children@.take(i as int)[k]);
            }
            if !(children@[i as int] matches Some(c) ==> c.translated) {
                assert(t[i as int] == children@[i as int]);
            }
        }
        i += 1;
    }
    assert(children@.take(children@.len() as int) =~= children@);
    let highest_index = start_idx + li_count - 1;
    // A blank line between two items is what makes a list loose, so a tight
    // one joins them on consecutive lines.
    let boundary = ol_boundary_newlines(list);

    let mut contents = String::new();
    let mut curr_li_idx = start_idx - 1;
    let ghost mut acc: Seq<String> = seq![contents];
    let ghost mut rendered: Seq<String> = seq![];
    let mut i: usize = 0;
    while i < children.len()
        invariant
            i <= children@.len(),
            children@.len() <= usize::MAX - i32::MAX,
            1 <= start_idx <= i32::MAX,
            li_count == items_among(kept),
            kept == handled(children@),
            highest_index == start_idx + li_count - 1,
            curr_li_idx == start_idx - 1 + items_among(handled(children@.take(i as int))),
            items_among(handled(children@.take(i as int))) <= li_count,
            forall|text: Vec<char>, width: usize| #[trigger] indent.requires((text, width)),
            forall|c: String, b: String, n: usize| #[trigger] append_block.requires((c, b, n)),
            ol_blocks_built(
                handled(children@.take(i as int)),
                start_idx as nat,
                highest_index as nat,
                number_spacing as nat,
                boundary,
                *indent,
                *append_block,
                acc,
                rendered,
            ),
            acc.last() == contents,
        decreases children@.len() - i,
    {
        let ghost before = handled(children@.take(i as int));
        let ghost t = children@.take(i + 1 as int);
        assert(t.drop_last() =~= children@.take(i as int));
        proof {
            lemma_items_in_prefix(children@, i + 1);
            lemma_handled_step(children@, i as int);
        }
        match &children[i] {
            None => {
                assert(handled(t) == before);
            },
            Some(c) => {
                let block = if c.is_li {
                    curr_li_idx += 1;
                    add_ol_li_marker(number_spacing, c.text.as_str(), curr_li_idx, highest_index, indent)
                } else {
                    c.text.clone()
                };
                let ghost previous = contents;
                let ghost block_copy = block;
                contents = append_block(contents, block, boundary);
                proof {
                    let after = before.push(*c);
                    assert(handled(t) == after);
                    let new_acc = acc.push(contents);
                    let new_rendered = rendered.push(block_copy);
                    assert(new_acc[before.len() as int] == previous);
                    assert(after.take(before.len() as int) =~= before);
                    assert forall|j: int| 0 <= j < after.len() implies (if after[j].is_li {
                        ol_item_written(
                            *indent,
                            number_spacing as nat,
                            after[j].text@,
                            start_idx as nat + items_among(after.take(j)),
                            highest_index as nat,
                            #[trigger] new_rendered[j]@,
                        )
                    } else {
                        new_rendered[j]@ == after[j].text@
                    }) && append_block.ensures((new_acc[j], new_rendered[j], boundary), new_acc[j + 1]) by {
                        if j < before.len() {
                            assert(after.take(j) =~= before.take(j));
                            assert(after[j] == before[j]);
                            assert(new_rendered[j] == rendered[j]);
                            assert(new_acc[j] == acc[j]);
                            assert(new_acc[j + 1] == acc[j + 1]);
                            assert(rendered[j] == rendered[j]);
                        } else {
                            assert(after[j] == *c);
                            assert(after.take(j) =~= before);
                        }
                    }
                    acc = new_acc;
                    rendered = new_rendered;
                }
            },
        }
        i += 1;
    }
    assert(children@.take(children@.len() as int) =~= children@);
    assert(ol_blocks_built(
        kept,
        start_idx as nat,
        (start_idx + items_among(kept) - 1) as nat,
        number_spacing as nat,
        boundary,
        *indent,
        *append_block,
        acc,
        rendered,
    ));
    assert(acc.len() == kept.len() + 1);
    assert(contents@ == acc[kept.len() as int]@);
    assert(ol_blocks_built(
        handled(children@),
        start_idx as nat,
        (start_idx as nat + items_among(handled(children@)) - 1) as nat,
        number_spacing as nat,
        boundary,
        *indent,
        *append_block,
        acc,
        rendered,
    ));
    assert(ol_content_built(
        children@,
        start_idx as nat,
        number_spacing as nat,
        boundary,
        *indent,
        *append_block,
        contents@,
    ));
    (contents, all_translated_so_far)
}

/// Every item of a list gets a marker of the same width, so that the text of
/// each starts in the same column.
pub proof fn lemma_markers_line_up(number_spacing: nat, index: nat, other: nat, highest_index: nat)
    requires
        index <= highest_index,
        other <= highest_index,
    ensures
        ol_marker(number_spacing, index, highest_index).len() == ol_marker(
            number_spacing,
            other,
            highest_index,
        ).len(),
        ol_marker(number_spacing, index, highest_index).len() == number_spacing + decimal(
            highest_index,
        ).len() + 2,
{
    lemma_digits_monotonic(index, highest_index);
    lemma_digits_monotonic(other, highest_index);
}

/// The items of a tight list hold tight blocks too: no blank line may go
/// between two blocks of an item any more than between two items.
pub proof fn lemma_items_of_a_tight_list_hold_tight_blocks(list: DomNode, item: DomNode)
    requires
        is_named(list, ul_name()) || is_named(list, ol_name()),
        is_named(item, li_name()),
    ensures
        tight_blocks(item, Some(list)) == tight_blocks(list, None),
{
    assert(!is_named(item, ul_name()) && !is_named(item, ol_name())) by {
        if let DomNode::Element { tag, .. } = item {
            assert(tag@[0] == 'l');
        }
    }
}

/// One `<p>` directly under any item, at any place among that item's
/// children, makes the whole list loose.
pub proof fn lemma_a_paragraph_in_any_item_makes_the_list_loose(list: DomNode, i: int, j: int)
    requires
        0 <= i < node_children(list).len(),
        is_named(node_children(list)[i], li_name()),
        0 <= j < node_children(node_children(list)[i]).len(),
        is_named(node_children(node_children(list)[i])[j], p_name()),
    ensures
        !tight_list(list),
{
    assert(has_paragraph_child(node_children(list)[i]));
}

/// A list none of whose items holds a `<p>` directly is tight, and so, where
/// its attributes and content translate and its children are all items, it
/// is never written as HTML for want of room for a blank line: a single item
/// with a single block is written as Markdown.
pub proof fn lemma_a_list_without_paragraphs_is_tight(list: DomNode, is_faithful: bool)
    requires
        forall|i: int, j: int|
            0 <= i < node_children(list).len() && is_named(node_children(list)[i], li_name())
                && 0 <= j < node_children(node_children(list)[i]).len() ==> !is_named(
                #[trigger] node_children(node_children(list)[i])[j],
                p_name(),
            ),
    ensures
        tight_list(list),
        only_items(list) ==> !list_serialized_up_front(is_faithful, true, true, list),
{
    assert forall|i: int|
        0 <= i < node_children(list).len() && is_named(#[trigger] node_children(list)[i], li_name())
            implies !has_paragraph_child(node_children(list)[i]) by {
        if has_paragraph_child(node_children(list)[i]) {
            let j = choose|j: int|
                0 <= j < node_children(node_children(list)[i]).len() && is_named(
                    #[trigger] node_children(node_children(list)[i])[j],
                    p_name(),
                );
            assert(!is_named(node_children(node_children(list)[i])[j], p_name()));
        }
    }
}

} // verus!
