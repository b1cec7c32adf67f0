//! Paragraphs.

use vstd::prelude::*;

use crate::html_block::{opens_block, opens_html_block};

verus! {

/// Whether a `<p>` whose children were written as `content` has to be written
/// as HTML rather than framed as a Markdown paragraph.
///
/// A paragraph is opened only where the block scan matched nothing else, so
/// content meeting an HTML block start condition would be read back as that
/// block and the `<p>` around it lost. Faithful translation keeps the `<p>`
/// by writing it as HTML; pure translation frames the content regardless.
pub fn p_handler(content: &str, is_faithful: bool) -> (serialize: bool)
    ensures
        serialize == (is_faithful && opens_block(content@)),
{
    is_faithful && opens_html_block(content)
}

} // verus!
