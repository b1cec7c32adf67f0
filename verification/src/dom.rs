//! The parts of the document tree that the handlers read: element names,
//! text, and the siblings and ancestors of an element.
//!
//! The tree here holds as plain values what the HTML parser's nodes hold and
//! the handlers look at. An element sees the tree around it as the chain of
//! its ancestors, nearest first, each with the siblings that stand before and
//! after the child the chain came up through.

use vstd::prelude::*;

use crate::block_elements::{is_block_element, is_block_name, same_chars};
use crate::text::chars_of;

verus! {

/// A node of the document tree.
pub enum DomNode {
    /// A run of text.
    Text(String),
    /// An element, by its local name, with its children in document order.
    Element { tag: String, children: Vec<DomNode> },
    /// Anything else — a comment, a doctype, a processing instruction — none of
    /// which reaches the output.
    Other,
}

/// One step up the chain of an element's ancestors.
pub struct AncestorFrame {
    /// The siblings before the child this step came up from, in document
    /// order.
    pub before: Vec<DomNode>,
    /// The siblings after it, in document order.
    pub after: Vec<DomNode>,
    /// The name of the parent, or `None` where the parent is not an element
    /// (the document itself).
    pub parent_tag: Option<String>,
}

/// What a walk out from an element toward one end of its line ran into.
pub enum Adjacent {
    /// The character the output holds there.
    Char(char),
    /// A line or block edge, which flanking counts as whitespace.
    Edge,
    /// Nothing that reaches the output; keep looking further out.
    Nothing,
}

/// Which way out of an element to look for the character next to it.
pub enum Direction {
    /// Toward the start of the document.
    Back,
    /// Toward its end.
    Forward,
}

/// The name `br`.
pub open spec fn br_name() -> Seq<char> {
    seq!['b', 'r']
}

/// The name `img`.
pub open spec fn img_name() -> Seq<char> {
    seq!['i', 'm', 'g']
}

/// What `nodes`, siblings in document order, show at their end: the last
/// character of the last one to reach the output, or the edge a line break
/// or a block puts there.
pub open spec fn scanned_back(nodes: Seq<DomNode>) -> Adjacent
    decreases nodes,
{
    if nodes.len() == 0 {
        Adjacent::Nothing
    } else {
        match node_scanned_back(nodes[nodes.len() - 1]) {
            Adjacent::Nothing => scanned_back(nodes.subrange(0, nodes.len() - 1)),
            found => found,
        }
    }
}

/// What `node` shows at its end; see [`scanned_back`]. An image writes a link,
/// which ends in `)`.
pub open spec fn node_scanned_back(node: DomNode) -> Adjacent
    decreases node,
{
    match node {
        DomNode::Text(t) => if t@.len() > 0 {
            Adjacent::Char(t@.last())
        } else {
            Adjacent::Nothing
        },
        DomNode::Element { tag, children } => if tag@ == br_name() || is_block_name(tag@) {
            Adjacent::Edge
        } else if tag@ == img_name() {
            Adjacent::Char(')')
        } else {
            scanned_back(children@)
        },
        DomNode::Other => Adjacent::Nothing,
    }
}

/// What `nodes`, siblings in document order, show at their start: the mirror
/// of [`scanned_back`].
pub open spec fn scanned_forward(nodes: Seq<DomNode>) -> Adjacent
    decreases nodes,
{
    if nodes.len() == 0 {
        Adjacent::Nothing
    } else {
        match node_scanned_forward(nodes[0]) {
            Adjacent::Nothing => scanned_forward(nodes.subrange(1, nodes.len() as int)),
            found => found,
        }
    }
}

/// What `node` shows at its start; see [`scanned_forward`]. An image writes a
/// link, which starts with `!`.
pub open spec fn node_scanned_forward(node: DomNode) -> Adjacent
    decreases node,
{
    match node {
        DomNode::Text(t) => if t@.len() > 0 {
            Adjacent::Char(t@[0])
        } else {
            Adjacent::Nothing
        },
        DomNode::Element { tag, children } => if tag@ == br_name() || is_block_name(tag@) {
            Adjacent::Edge
        } else if tag@ == img_name() {
            Adjacent::Char('!')
        } else {
            scanned_forward(children@)
        },
        DomNode::Other => Adjacent::Nothing,
    }
}

/// The character the output holds next to an element whose ancestors are
/// `frames`, looking in `direction`; `None` where a line or a block edge comes
/// first. The line reaches past an ancestor only while that ancestor is an
/// inline element.
pub open spec fn adjacent_from(frames: Seq<AncestorFrame>, direction: Direction) -> Option<char>
    decreases frames.len(),
{
    if frames.len() == 0 {
        None
    } else {
        let frame = frames[0];
        let found = match direction {
            Direction::Back => scanned_back(frame.before@),
            Direction::Forward => scanned_forward(frame.after@),
        };
        match found {
            Adjacent::Char(c) => Some(c),
            Adjacent::Edge => None,
            Adjacent::Nothing => match frame.parent_tag {
                None => None,
                Some(tag) => if is_block_name(tag@) {
                    None
                } else {
                    adjacent_from(frames.drop_first(), direction)
                },
            },
        }
    }
}

/// Whether one of `nodes`, or anything beneath one of them, is a block
/// element.
pub open spec fn nodes_hold_block(nodes: Seq<DomNode>) -> bool
    decreases nodes,
{
    if nodes.len() == 0 {
        false
    } else {
        node_is_or_holds_block(nodes[0]) || nodes_hold_block(nodes.subrange(1, nodes.len() as int))
    }
}

/// Whether `node` is a block element or holds one beneath it.
pub open spec fn node_is_or_holds_block(node: DomNode) -> bool
    decreases node,
{
    match node {
        DomNode::Element { tag, children } => is_block_name(tag@) || nodes_hold_block(children@),
        _ => false,
    }
}

/// Whether `node` holds a block element anywhere beneath it.
pub open spec fn holds_block(node: DomNode) -> bool {
    match node {
        DomNode::Element { children, .. } => nodes_hold_block(children@),
        _ => false,
    }
}

/// Whether `tag` is `br`.
fn is_br(tag: &[char]) -> (r: bool)
    ensures
        r == (tag@ == br_name()),
{
    let br: [char; 2] = ['b', 'r'];
    assert(br@ =~= br_name());
    same_chars(tag, &br)
}

/// Whether `tag` is `img`.
fn is_img(tag: &[char]) -> (r: bool)
    ensures
        r == (tag@ == img_name()),
{
    let img: [char; 3] = ['i', 'm', 'g'];
    assert(img@ =~= img_name());
    same_chars(tag, &img)
}

/// Scans `nodes` — the siblings ahead of an element, in document order — back
/// to front, stopping at the first one that reaches the output.
///
/// An element writing markers of its own puts punctuation at its edge rather
/// than the text this finds, which only makes the answer stricter: the element
/// is serialized where it need not have been, never written where it cannot
/// be.
pub fn scan_back(nodes: &[DomNode]) -> (r: Adjacent)
    ensures
        r == scanned_back(nodes@),
    decreases nodes@,
{
    let mut i = nodes.len();
    assert(nodes@.subrange(0, nodes@.len() as int) =~= nodes@);
    while i > 0
        invariant
            i <= nodes@.len(),
            scanned_back(nodes@) == scanned_back(nodes@.subrange(0, i as int)),
        decreases i,
    {
        let ghost prefix = nodes@.subrange(0, i as int);
        i -= 1;
        assert(prefix[prefix.len() - 1] == nodes@[i as int]);
        assert(prefix.subrange(0, prefix.len() - 1) =~= nodes@.subrange(0, i as int));
        match &nodes[i] {
            DomNode::Text(contents) => {
                let text = chars_of(contents.as_str());
                assert(node_scanned_back(nodes@[i as int]) == if text@.len() > 0 {
                    Adjacent::Char(text@.last())
                } else {
                    Adjacent::Nothing
                });
                if text.len() > 0 {
                    return Adjacent::Char(text[text.len() - 1]);
                }
            },
            DomNode::Element { tag, children } => {
                let name = chars_of(tag.as_str());
                // Both end the line they sit on.
                if is_br(name.as_slice()) || is_block_element(name.as_slice()) {
                    assert(node_scanned_back(nodes@[i as int]) == Adjacent::Edge);
                    return Adjacent::Edge;
                }
                // Childless, but it still writes a link, which ends in `)`.
                if is_img(name.as_slice()) {
                    assert(node_scanned_back(nodes@[i as int]) == Adjacent::Char(')'));
                    return Adjacent::Char(')');
                }
                assert(node_scanned_back(nodes@[i as int]) == scanned_back(children@));
                assert(decreases_to!(nodes@ => nodes@[i as int]));
                match scan_back(children.as_slice()) {
                    Adjacent::Nothing => {},
                    found => return found,
                }
            },
            DomNode::Other => {
                assert(node_scanned_back(nodes@[i as int]) == Adjacent::Nothing);
            },
        }
    }
    assert(nodes@.subrange(0, 0) =~= Seq::<DomNode>::empty());
    Adjacent::Nothing
}

/// Scans `nodes` — the siblings after an element, in document order — front
/// to back, the mirror of [`scan_back`].
pub fn scan_forward(nodes: &[DomNode]) -> (r: Adjacent)
    ensures
        r == scanned_forward(nodes@),
    decreases nodes@,
{
    let mut i: usize = 0;
    assert(nodes@.subrange(0, nodes@.len() as int) =~= nodes@);
    while i < nodes.len()
        invariant
            i <= nodes@.len(),
            scanned_forward(nodes@) == scanned_forward(nodes@.subrange(i as int, nodes@.len() as int)),
        decreases nodes@.len() - i,
    {
        let ghost suffix = nodes@.subrange(i as int, nodes@.len() as int);
        assert(suffix[0] == nodes@[i as int]);
        assert(suffix.subrange(1, suffix.len() as int) =~= nodes@.subrange(i + 1, nodes@.len() as int));
        match &nodes[i] {
            DomNode::Text(contents) => {
                let text = chars_of(contents.as_str());
                assert(node_scanned_forward(nodes@[i as int]) == if text@.len() > 0 {
                    Adjacent::Char(text@[0])
                } else {
                    Adjacent::Nothing
                });
                if text.len() > 0 {
                    return Adjacent::Char(text[0]);
                }
            },
            DomNode::Element { tag, children } => {
                let name = chars_of(tag.as_str());
                if is_br(name.as_slice()) || is_block_element(name.as_slice()) {
                    assert(node_scanned_forward(nodes@[i as int]) == Adjacent::Edge);
                    return Adjacent::Edge;
                }
                // The link it writes starts with `!`.
                if is_img(name.as_slice()) {
                    assert(node_scanned_forward(nodes@[i as int]) == Adjacent::Char('!'));
                    return Adjacent::Char('!');
                }
                assert(node_scanned_forward(nodes@[i as int]) == scanned_forward(children@));
                assert(decreases_to!(nodes@ => nodes@[i as int]));
                match scan_forward(children.as_slice()) {
                    Adjacent::Nothing => {},
                    found => return found,
                }
            },
            DomNode::Other => {
                assert(node_scanned_forward(nodes@[i as int]) == Adjacent::Nothing);
            },
        }
        i += 1;
    }
    assert(nodes@.subrange(nodes@.len() as int, nodes@.len() as int) =~= Seq::<DomNode>::empty());
    Adjacent::Nothing
}

/// Walks out from an element through the inline elements around it, scanning
/// each ancestor's children on the given side, until one of them reaches the
/// output or a block boundary ends the search.
pub fn adjacent_char(frames: &[AncestorFrame], direction: Direction) -> (r: Option<char>)
    ensures
        r == adjacent_from(frames@, direction),
{
    let mut k: usize = 0;
    assert(frames@.skip(0) =~= frames@);
    while k < frames.len()
        invariant
            k <= frames@.len(),
            adjacent_from(frames@, direction) == adjacent_from(frames@.skip(k as int), direction),
        decreases frames@.len() - k,
    {
        let frame = &frames[k];
        assert(frames@.skip(k as int)[0] == *frame);
        assert(frames@.skip(k as int).drop_first() =~= frames@.skip(k + 1));
        let found = match direction {
            Direction::Back => scan_back(frame.before.as_slice()),
            Direction::Forward => scan_forward(frame.after.as_slice()),
        };
        match found {
            Adjacent::Char(ch) => return Some(ch),
            Adjacent::Edge => return None,
            Adjacent::Nothing => {},
        }
        // Nothing lies that way within this element. The line reaches past it
        // only while it is inline: a block element starts a line of its own.
        match &frame.parent_tag {
            None => return None,
            Some(tag) => {
                if is_block_element(chars_of(tag.as_str()).as_slice()) {
                    return None;
                }
            },
        }
        k += 1;
    }
    assert(frames@.skip(k as int) =~= Seq::<AncestorFrame>::empty());
    None
}

/// The character the output holds ahead of an element whose ancestors are
/// `frames`, or `None` where the element opens a line or a block.
pub fn preceding_char(frames: &[AncestorFrame]) -> (r: Option<char>)
    ensures
        r == adjacent_from(frames@, Direction::Back),
{
    adjacent_char(frames, Direction::Back)
}

/// The character the output holds after an element whose ancestors are
/// `frames`, or `None` where the element ends a line or a block.
pub fn following_char(frames: &[AncestorFrame]) -> (r: Option<char>)
    ensures
        r == adjacent_from(frames@, Direction::Forward),
{
    adjacent_char(frames, Direction::Forward)
}

/// Whether `node` holds a block element anywhere beneath it, which is what
/// says its content came back as blocks rather than as text that only reads
/// like one.
pub fn holds_block_element(node: &DomNode) -> (r: bool)
    ensures
        r == holds_block(*node),
{
    match node {
        DomNode::Element { children, .. } => any_holds_block(children.as_slice()),
        _ => false,
    }
}

/// Whether one of `nodes`, or anything beneath one of them, is a block
/// element.
fn any_holds_block(nodes: &[DomNode]) -> (r: bool)
    ensures
        r == nodes_hold_block(nodes@),
    decreases nodes@,
{
    let mut i: usize = 0;
    assert(nodes@.subrange(0, nodes@.len() as int) =~= nodes@);
    while i < nodes.len()
        invariant
            i <= nodes@.len(),
            nodes_hold_block(nodes@) == nodes_hold_block(nodes@.subrange(i as int, nodes@.len() as int)),
        decreases nodes@.len() - i,
    {
        let ghost suffix = nodes@.subrange(i as int, nodes@.len() as int);
        assert(suffix[0] == nodes@[i as int]);
        assert(suffix.subrange(1, suffix.len() as int) =~= nodes@.subrange(i + 1, nodes@.len() as int));
        match &nodes[i] {
            DomNode::Element { tag, children } => {
                assert(node_is_or_holds_block(nodes@[i as int]) == (is_block_name(tag@)
                    || nodes_hold_block(children@)));
                if is_block_element(chars_of(tag.as_str()).as_slice()) {
                    return true;
                }
                assert(decreases_to!(nodes@ => nodes@[i as int]));
                if any_holds_block(children.as_slice()) {
                    return true;
                }
            },
            _ => {
                assert(!node_is_or_holds_block(nodes@[i as int]));
            },
        }
        i += 1;
    }
    assert(nodes@.subrange(nodes@.len() as int, nodes@.len() as int) =~= Seq::<DomNode>::empty());
    false
}

} // verus!
