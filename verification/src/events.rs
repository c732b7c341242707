//! The typed structural events the renderer consumes, one per unit of
//! parsed markdown structure, delivered in document order.

use vstd::prelude::*;
use crate::inline::InlinePiece;
use crate::list::Bullet;

verus! {

/// One structural event. Inline events carry already-extracted text;
/// block events carry the data their construct needs.
pub enum Event {
    Text(String),
    InlineCode(String),
    Bold(String),
    Italic(String),
    Underline(String),
    Strikeout(String),
    BoldItalic(String),
    Link { text: String, url: String },
    Image { alt: String, url: String },
    Footnote(String),
    Heading { level: u8, content: String },
    CodeBlockStart { language: Option<String>, indent: usize },
    CodeBlockLine(String),
    CodeBlockEnd,
    ListItem { indent: usize, bullet: Bullet, content: String },
    ListEnd,
    TableHeader(Vec<String>),
    TableRow(Vec<String>),
    TableSeparator,
    TableEnd,
    BlockquoteStart { depth: usize },
    BlockquoteLine(String),
    BlockquoteEnd,
    ThinkBlockStart,
    ThinkBlockLine(String),
    ThinkBlockEnd,
    HorizontalRule,
    EmptyLine,
    Newline,
    Prompt(String),
    InlineElements(Vec<InlinePiece>),
}

impl Event {
    /// Whether this event breaks an open list context: everything but a
    /// list item, a list end, and blank lines does.
    pub open spec fn breaks_list(&self) -> bool {
        !(self is ListItem || self is ListEnd || self is EmptyLine || self is Newline)
    }
}

} // verus!
