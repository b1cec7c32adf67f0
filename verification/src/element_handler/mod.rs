//! The handlers of the elements that need more than a fixed spelling, and
//! what a handler decides for an element.

use vstd::prelude::*;

pub mod emphasis;
pub mod headings;
pub mod list;
pub mod p;

verus! {

/// What a handler writes for an element.
pub enum HandlerOutcome {
    /// Nothing at all.
    Skip,
    /// This Markdown.
    Markdown(String),
    /// The element as HTML, since Markdown cannot say what it says.
    Serialize,
}

/// What a handler writes, as characters.
pub enum Written {
    /// Nothing at all.
    Nothing,
    /// This Markdown.
    Markdown(Seq<char>),
    /// The element as HTML.
    Html,
}

/// The characters of an outcome.
pub open spec fn written(outcome: HandlerOutcome) -> Written {
    match outcome {
        HandlerOutcome::Skip => Written::Nothing,
        HandlerOutcome::Markdown(s) => Written::Markdown(s@),
        HandlerOutcome::Serialize => Written::Html,
    }
}

} // verus!
