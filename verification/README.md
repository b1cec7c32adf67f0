# htmd (verified handlers)

Verified pieces of an HTML-to-Markdown translator, written in Verus.

- `src/html_block.rs` — whether a line of Markdown would open a CommonMark
  HTML block (the seven start conditions).
- `src/element_handler/` — the decisions of the handlers for emphasis,
  headings, paragraphs and lists: what they write, and when an element has to
  be written as HTML instead.
- `src/dom.rs` — the plain tree those handlers read: element names, text, and
  the siblings around an element's ancestors.
- `src/chars.rs`, `src/text.rs`, `src/block_elements.rs` — character classes,
  lines, UTF-8 lengths and the names of the block elements.
- `app/` — reads the nodes of a `markup5ever_rcdom` tree into that plain tree.
