//! Verified pieces of an HTML-to-Markdown translator: the handlers that
//! decide how emphasis, headings, paragraphs and lists are written, and the
//! reader that tells whether a line of Markdown would open an HTML block.
use vstd::prelude::*;

pub mod block_elements;
pub mod chars;
pub mod dom;
pub mod element_handler;
pub mod html_block;
pub mod text;

verus! {

} // verus!
