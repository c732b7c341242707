//! The event dispatcher: consumes one structural event at a time, tracks
//! blockquote margin, code-block language and the table buffer, routes
//! each event to the right sub-renderer, and returns the text to write.

use vstd::prelude::*;
use crate::code::{code_block_out, CodeHighlighter};
use crate::events::Event;
use crate::inline::{
    decode_entities, no_entity_start, parsed_inline, pieces_decoded, render_pieces,
    rendered_pieces, InlineTok,
};
use crate::list::{
    adjusted_counters, adjusted_frames, list_item_lines, render_list_item, sat_inc, ListState,
};
use crate::strutil::{append_lines, char_seq, lines_joined, push_char, repeat_char, sat_add};
use crate::style::BlockStyler;
use crate::table::{render_table, table_spec};
use crate::text::{text_wrap, wrap_spec, wrap_within_limits};

verus! {

/// `piece` repeated `depth` times.
pub open spec fn margin_rep(piece: Seq<char>, depth: nat) -> Seq<char>
    decreases depth,
{
    if depth == 0 {
        Seq::empty()
    } else {
        margin_rep(piece, (depth - 1) as nat) + piece
    }
}

/// Main renderer for structural events.
pub struct Renderer<S: BlockStyler> {
    width: usize,
    styler: S,
    highlighter: CodeHighlighter,
    current_language: Option<String>,
    code_buffer: String,
    table_rows: Vec<Vec<String>>,
    in_blockquote: bool,
    blockquote_depth: usize,
    list_state: ListState,
    column: usize,
}

impl<S: BlockStyler> Renderer<S> {
    /// The configured output width.
    pub closed spec fn width_of(&self) -> usize {
        self.width
    }

    /// The styling capability in use.
    pub closed spec fn styler_of(&self) -> S {
        self.styler
    }

    pub closed spec fn highlighter_of(&self) -> CodeHighlighter {
        self.highlighter
    }

    /// The language tag of the open code block, if any.
    pub closed spec fn language_of(&self) -> Option<Seq<char>> {
        match self.current_language {
            Some(l) => Some(l@),
            None => None,
        }
    }

    /// The accumulated content of the open code block.
    pub closed spec fn buffer_of(&self) -> Seq<char> {
        self.code_buffer@
    }

    /// The buffered table rows.
    pub closed spec fn table_of(&self) -> Seq<Seq<Seq<char>>> {
        self.table_rows.deep_view()
    }

    pub closed spec fn quote_active(&self) -> bool {
        self.in_blockquote
    }

    pub closed spec fn quote_depth(&self) -> usize {
        self.blockquote_depth
    }

    /// The list tracking state.
    pub closed spec fn list_of(&self) -> ListState {
        self.list_state
    }

    /// The output column tracker.
    pub closed spec fn column_of(&self) -> usize {
        self.column
    }

    /// The left margin: one styled bar and a space per blockquote level.
    pub open spec fn margin_of(&self) -> Seq<char> {
        if self.quote_active() {
            margin_rep(
                self.styler_of().quote_border_spec("\u{2502}"@) + " "@,
                self.quote_depth() as nat,
            )
        } else {
            Seq::empty()
        }
    }

    /// The width available inside the current blockquote margin: three
    /// columns are reserved per nesting level.
    pub open spec fn avail_width_of(&self) -> nat {
        let sub: nat = if self.quote_active() {
            3 * self.quote_depth() as nat
        } else {
            0
        };
        if self.width_of() as nat >= sub {
            (self.width_of() as nat - sub) as nat
        } else {
            0
        }
    }

    /// Well-formed renderer state.
    pub open spec fn wf(&self) -> bool {
        self.list_of().wf()
    }

    pub fn with_theme(width: usize, styler: S) -> (r: Self)
        ensures
            r.width_of() == width,
            r.styler_of() == styler,
            r.language_of() is None,
            r.buffer_of().len() == 0,
            r.table_of().len() == 0,
            !r.quote_active(),
            r.quote_depth() == 0,
            r.list_of().frames().len() == 0,
            r.list_of().counters().len() == 0,
            !r.list_of().pending(),
            r.column_of() == 0,
            r.wf(),
    {
        Renderer {
            width,
            styler,
            highlighter: CodeHighlighter::new(),
            current_language: None,
            code_buffer: String::new(),
            table_rows: Vec::new(),
            in_blockquote: false,
            blockquote_depth: 0,
            list_state: ListState::new(),
            column: 0,
        }
    }

    /// Replace the styling capability.
    pub fn set_theme(&mut self, styler: S)
        ensures
            final(self).styler_of() == styler,
            final(self).width_of() == old(self).width_of(),
            final(self).language_of() == old(self).language_of(),
            final(self).buffer_of() == old(self).buffer_of(),
            final(self).table_of() == old(self).table_of(),
            final(self).quote_active() == old(self).quote_active(),
            final(self).quote_depth() == old(self).quote_depth(),
            final(self).list_of() == old(self).list_of(),
            final(self).column_of() == old(self).column_of(),
    {
        self.styler = styler;
    }

    /// The styling capability in use.
    pub fn theme(&self) -> (r: &S)
        ensures
            *r == self.styler_of(),
    {
        &self.styler
    }

    /// Build the current left margin.
    fn left_margin(&self) -> (r: String)
        ensures
            r@ == self.margin_of(),
    {
        if !self.in_blockquote {
            String::new()
        } else {
            let border = self.styler.quote_border("\u{2502}");
            let mut piece = String::from_str(border.as_str());
            piece.append(" ");
            let ghost gp = self.styler_of().quote_border_spec("\u{2502}"@) + " "@;
            let mut r = String::new();
            let mut d: usize = 0;
            while d < self.blockquote_depth
                invariant
                    d <= self.quote_depth(),
                    piece@ == gp,
                    r@ == margin_rep(gp, d as nat),
                decreases self.quote_depth() - d,
            {
                r.append(piece.as_str());
                d = d + 1;
            }
            r
        }
    }

    /// Compute the width available inside the current margin.
    fn current_width(&self) -> (r: usize)
        ensures
            r as nat == self.avail_width_of(),
    {
        if self.in_blockquote {
            let sub = match self.blockquote_depth.checked_mul(3) {
                Some(v) => v,
                None => usize::MAX,
            };
            if self.width >= sub {
                self.width - sub
            } else {
                0
            }
        } else {
            self.width
        }
    }
}

/// The configuration a step never touches.
pub open spec fn core_kept<S: BlockStyler>(pre: Renderer<S>, post: Renderer<S>) -> bool {
    &&& post.width_of() == pre.width_of()
    &&& post.styler_of() == pre.styler_of()
    &&& post.highlighter_of() == pre.highlighter_of()
}

pub open spec fn quote_kept<S: BlockStyler>(pre: Renderer<S>, post: Renderer<S>) -> bool {
    &&& post.quote_active() == pre.quote_active()
    &&& post.quote_depth() == pre.quote_depth()
}

pub open spec fn code_kept<S: BlockStyler>(pre: Renderer<S>, post: Renderer<S>) -> bool {
    &&& post.language_of() == pre.language_of()
    &&& post.buffer_of() == pre.buffer_of()
}

pub open spec fn table_kept<S: BlockStyler>(pre: Renderer<S>, post: Renderer<S>) -> bool {
    post.table_of() == pre.table_of()
}

pub open spec fn list_kept<S: BlockStyler>(pre: Renderer<S>, post: Renderer<S>) -> bool {
    post.list_of() == pre.list_of()
}

/// The list context after a full reset.
pub open spec fn list_is_reset<S: BlockStyler>(post: Renderer<S>) -> bool {
    &&& post.list_of().frames().len() == 0
    &&& post.list_of().counters().len() == 0
    &&& !post.list_of().pending()
}

/// An inline event's step: the styled text is the whole output and only
/// the list context (reset) changes.
pub open spec fn inline_step<S: BlockStyler>(
    pre: Renderer<S>,
    post: Renderer<S>,
    out: Seq<char>,
    styled: Seq<char>,
) -> bool {
    &&& out == styled
    &&& core_kept(pre, post)
    &&& quote_kept(pre, post)
    &&& code_kept(pre, post)
    &&& table_kept(pre, post)
    &&& list_is_reset(post)
    &&& post.column_of() == pre.column_of()
}

/// A block event's step that wrote whole lines: the column tracker is
/// back at zero.
pub open spec fn block_written<S: BlockStyler>(post: Renderer<S>) -> bool {
    post.column_of() == 0
}

/// What one event does: the new state and the text written, case by
/// case over the event.
pub open spec fn event_step<S: BlockStyler>(
    pre: Renderer<S>,
    ev: Event,
    post: Renderer<S>,
    out: Seq<char>,
) -> bool {
    let styler = pre.styler_of();
    let margin = pre.margin_of();
    let awidth = pre.avail_width_of();
    match ev {
        Event::Text(t) => {
            &&& (no_entity_start(t@) ==> out == t@ && post.column_of() == sat_add(
                pre.column_of() as nat,
                t@.len(),
            ))
            &&& core_kept(pre, post)
            &&& quote_kept(pre, post)
            &&& code_kept(pre, post)
            &&& table_kept(pre, post)
            &&& list_is_reset(post)
        },
        Event::InlineCode(t) => inline_step(pre, post, out, styler.code_spec(t@)),
        Event::Bold(t) => inline_step(pre, post, out, styler.bold_spec(t@)),
        Event::Italic(t) => inline_step(pre, post, out, styler.italic_spec(t@)),
        Event::BoldItalic(t) => inline_step(pre, post, out, styler.bold_italic_spec(t@)),
        Event::Underline(t) => inline_step(pre, post, out, styler.underline_spec(t@)),
        Event::Strikeout(t) => inline_step(pre, post, out, styler.strikethrough_spec(t@)),
        Event::Link { text, url } => inline_step(pre, post, out, styler.link_spec(text@, url@)),
        Event::Image { alt, url } => inline_step(pre, post, out, styler.image_spec(alt@, url@)),
        Event::Footnote(t) => inline_step(pre, post, out, styler.footnote_spec(t@)),
        Event::Prompt(t) => inline_step(pre, post, out, t@),
        Event::InlineElements(elements) => inline_step(
            pre,
            post,
            out,
            rendered_pieces(&styler, elements.deep_view()),
        ),
        Event::Heading { level, content } => {
            &&& (no_entity_start(content@) ==> {
                let styled = styler.heading_spec(level, content@);
                let lw = if wrap_within_limits(styled, margin, margin) {
                    wrap_spec(styled, awidth, margin, margin)
                } else {
                    seq![]
                };
                &&& out == lines_joined(lw)
                &&& (lw.len() > 0 ==> post.column_of() == 0)
                &&& (lw.len() == 0 ==> post.column_of() == pre.column_of())
            })
            &&& core_kept(pre, post)
            &&& quote_kept(pre, post)
            &&& code_kept(pre, post)
            &&& table_kept(pre, post)
            &&& list_is_reset(post)
        },
        Event::CodeBlockStart { language, indent } => {
            &&& out == Seq::<char>::empty()
            &&& post.language_of() == (match language {
                Some(l) => Some(l@),
                None => None::<Seq<char>>,
            })
            &&& post.buffer_of().len() == 0
            &&& core_kept(pre, post)
            &&& quote_kept(pre, post)
            &&& table_kept(pre, post)
            &&& list_is_reset(post)
            &&& post.column_of() == pre.column_of()
        },
        Event::CodeBlockLine(line) => {
            &&& post.buffer_of() == (if pre.buffer_of().len() > 0 {
                pre.buffer_of().push('\n') + line@
            } else {
                line@
            })
            &&& post.language_of() == pre.language_of()
            &&& code_block_out(out, line@, margin, awidth)
            &&& core_kept(pre, post)
            &&& quote_kept(pre, post)
            &&& table_kept(pre, post)
            &&& list_is_reset(post)
            &&& block_written(post)
        },
        Event::CodeBlockEnd => {
            &&& out == Seq::<char>::empty()
            &&& post.language_of() is None
            &&& post.buffer_of().len() == 0
            &&& core_kept(pre, post)
            &&& quote_kept(pre, post)
            &&& table_kept(pre, post)
            &&& list_is_reset(post)
            &&& post.column_of() == pre.column_of()
        },
        Event::ListItem { indent, bullet, content } => {
            &&& post.list_of().frames() == adjusted_frames(
                pre.list_of().frames(),
                indent,
                bullet is Ordered,
            )
            &&& !post.list_of().pending()
            &&& ({
                let counters1 = adjusted_counters(
                    pre.list_of().frames(),
                    pre.list_of().counters(),
                    indent,
                );
                if bullet is Ordered {
                    counters1.len() > 0 && post.list_of().counters() == counters1.update(
                        counters1.len() - 1,
                        sat_inc(counters1.last()),
                    )
                } else {
                    post.list_of().counters() == counters1
                }
            })
            &&& (exists|dec: Seq<InlineTok>|
                pieces_decoded(parsed_inline(content@), dec) && out == lines_joined(
                    list_item_lines(
                        &styler,
                        pre.list_of().frames(),
                        pre.list_of().counters(),
                        indent,
                        bullet,
                        rendered_pieces(&styler, dec),
                        awidth as usize,
                        margin,
                    ),
                ))
            &&& core_kept(pre, post)
            &&& quote_kept(pre, post)
            &&& code_kept(pre, post)
            &&& table_kept(pre, post)
            &&& block_written(post)
        },
        Event::ListEnd => {
            &&& out == Seq::<char>::empty()
            &&& post.list_of().frames() == pre.list_of().frames()
            &&& post.list_of().counters() == pre.list_of().counters()
            &&& post.list_of().pending()
            &&& core_kept(pre, post)
            &&& quote_kept(pre, post)
            &&& code_kept(pre, post)
            &&& table_kept(pre, post)
            &&& post.column_of() == pre.column_of()
        },
        Event::TableHeader(cols) => {
            &&& out == Seq::<char>::empty()
            &&& post.table_of() == pre.table_of().push(cols.deep_view())
            &&& core_kept(pre, post)
            &&& quote_kept(pre, post)
            &&& code_kept(pre, post)
            &&& list_is_reset(post)
            &&& post.column_of() == pre.column_of()
        },
        Event::TableRow(cols) => {
            &&& out == Seq::<char>::empty()
            &&& post.table_of() == pre.table_of().push(cols.deep_view())
            &&& core_kept(pre, post)
            &&& quote_kept(pre, post)
            &&& code_kept(pre, post)
            &&& list_is_reset(post)
            &&& post.column_of() == pre.column_of()
        },
        Event::TableSeparator => {
            &&& out == Seq::<char>::empty()
            &&& core_kept(pre, post)
            &&& quote_kept(pre, post)
            &&& code_kept(pre, post)
            &&& table_kept(pre, post)
            &&& list_is_reset(post)
            &&& post.column_of() == pre.column_of()
        },
        Event::TableEnd => {
            let tl = table_spec(pre.table_of(), margin, &styler, pre.width_of());
            &&& out == lines_joined(tl)
            &&& post.table_of().len() == 0
            &&& core_kept(pre, post)
            &&& quote_kept(pre, post)
            &&& code_kept(pre, post)
            &&& list_is_reset(post)
            &&& (tl.len() > 0 ==> post.column_of() == 0)
            &&& (tl.len() == 0 ==> post.column_of() == pre.column_of())
        },
        Event::BlockquoteStart { depth } => {
            &&& out == Seq::<char>::empty()
            &&& post.quote_active()
            &&& post.quote_depth() == depth
            &&& core_kept(pre, post)
            &&& code_kept(pre, post)
            &&& table_kept(pre, post)
            &&& list_is_reset(post)
            &&& post.column_of() == pre.column_of()
        },
        Event::BlockquoteLine(t) => {
            let lw = if wrap_within_limits(t@, margin, margin) {
                wrap_spec(t@, awidth, margin, margin)
            } else {
                seq![]
            };
            &&& out == (if lw.len() == 0 {
                margin.push('\n')
            } else {
                lines_joined(lw)
            })
            &&& core_kept(pre, post)
            &&& quote_kept(pre, post)
            &&& code_kept(pre, post)
            &&& table_kept(pre, post)
            &&& list_is_reset(post)
            &&& block_written(post)
        },
        Event::BlockquoteEnd => {
            &&& out == Seq::<char>::empty()
            &&& !post.quote_active()
            &&& post.quote_depth() == 0
            &&& core_kept(pre, post)
            &&& code_kept(pre, post)
            &&& table_kept(pre, post)
            &&& list_is_reset(post)
            &&& post.column_of() == pre.column_of()
        },
        Event::ThinkBlockStart => {
            &&& out == styler.think_border_spec("\u{250c}\u{2500} thinking \u{2500}"@).push('\n')
            &&& post.quote_active()
            &&& post.quote_depth() == 1
            &&& core_kept(pre, post)
            &&& code_kept(pre, post)
            &&& table_kept(pre, post)
            &&& list_is_reset(post)
            &&& block_written(post)
        },
        Event::ThinkBlockLine(t) => {
            &&& out == styler.think_border_spec("\u{2502}"@) + " "@ + styler.think_body_spec(t@)
                + seq!['\n']
            &&& core_kept(pre, post)
            &&& quote_kept(pre, post)
            &&& code_kept(pre, post)
            &&& table_kept(pre, post)
            &&& list_is_reset(post)
            &&& block_written(post)
        },
        Event::ThinkBlockEnd => {
            &&& out == styler.think_border_spec("\u{2514}"@).push('\n')
            &&& !post.quote_active()
            &&& post.quote_depth() == 0
            &&& core_kept(pre, post)
            &&& code_kept(pre, post)
            &&& table_kept(pre, post)
            &&& list_is_reset(post)
            &&& block_written(post)
        },
        Event::HorizontalRule => {
            &&& out == margin + styler.rule_spec(char_seq('\u{2500}', awidth)) + seq!['\n']
            &&& core_kept(pre, post)
            &&& quote_kept(pre, post)
            &&& code_kept(pre, post)
            &&& table_kept(pre, post)
            &&& list_is_reset(post)
            &&& block_written(post)
        },
        Event::EmptyLine => {
            &&& out == seq!['\n']
            &&& core_kept(pre, post)
            &&& quote_kept(pre, post)
            &&& code_kept(pre, post)
            &&& table_kept(pre, post)
            &&& list_kept(pre, post)
            &&& block_written(post)
        },
        Event::Newline => {
            &&& out == seq!['\n']
            &&& core_kept(pre, post)
            &&& quote_kept(pre, post)
            &&& code_kept(pre, post)
            &&& table_kept(pre, post)
            &&& list_kept(pre, post)
            &&& block_written(post)
        },
    }
}

impl Renderer<crate::style::AnsiStyler> {
    /// A renderer with the default ANSI theme.
    pub fn new(width: usize) -> (r: Self)
        ensures
            r.width_of() == width,
            r.language_of() is None,
            r.buffer_of().len() == 0,
            r.table_of().len() == 0,
            !r.quote_active(),
            r.quote_depth() == 0,
            !r.list_of().pending(),
            r.list_of().frames().len() == 0,
            r.column_of() == 0,
            r.wf(),
    {
        Renderer::with_theme(width, crate::style::AnsiStyler)
    }
}

impl<S: BlockStyler> Renderer<S> {
    /// Process one event: update the renderer's state and return the text
    /// to write to the output sink.
    pub fn render_event(&mut self, event: &Event) -> (out: String)
        requires
            old(self).wf(),
        ensures
            final(self).wf(),
            event_step(*old(self), *event, *final(self), out@),
    {
        let ghost pre = *self;
        // a non-list event breaks any pending list context
        let breaks = !matches!(
            event,
            Event::ListItem { .. } | Event::ListEnd | Event::EmptyLine | Event::Newline
        );
        if breaks {
            self.list_state.reset();
        }
        proof {
            assert(self.margin_of() == pre.margin_of());
            assert(self.avail_width_of() == pre.avail_width_of());
        }

        match event {
            Event::Text(t) => {
                let decoded = decode_entities(t.as_str());
                self.column = self.column.saturating_add(decoded.as_str().unicode_len());
                decoded
            },
            Event::InlineCode(t) => self.styler.code(t.as_str()),
            Event::Bold(t) => self.styler.bold(t.as_str()),
            Event::Italic(t) => self.styler.italic(t.as_str()),
            Event::BoldItalic(t) => self.styler.bold_italic(t.as_str()),
            Event::Underline(t) => self.styler.underline(t.as_str()),
            Event::Strikeout(t) => self.styler.strikethrough(t.as_str()),
            Event::Link { text, url } => self.styler.link(text.as_str(), url.as_str()),
            Event::Image { alt, url } => self.styler.image(alt.as_str(), url.as_str()),
            Event::Footnote(t) => self.styler.footnote(t.as_str()),
            Event::Prompt(t) => String::from_str(t.as_str()),
            Event::InlineElements(elements) => render_pieces(&self.styler, elements),
            Event::Heading { level, content } => {
                let margin = self.left_margin();
                let width = self.current_width();
                let decoded = decode_entities(content.as_str());
                let styled = self.styler.heading(*level, decoded.as_str());
                let wrapped = text_wrap(styled.as_str(), width, margin.as_str(), margin.as_str());
                let mut out = String::new();
                append_lines(&mut out, &wrapped.lines);
                if wrapped.lines.len() > 0 {
                    self.column = 0;
                }
                proof {
                    assert(out@ =~= lines_joined(wrapped.lines.deep_view()));
                }
                out
            },
            Event::CodeBlockStart { language, indent: _ } => {
                self.current_language = match language {
                    Some(l) => Some(l.clone()),
                    None => None,
                };
                self.code_buffer = String::new();
                String::new()
            },
            Event::CodeBlockLine(line) => {
                if !self.code_buffer.as_str().is_empty() {
                    push_char(&mut self.code_buffer, '\n');
                    self.code_buffer.append(line.as_str());
                } else {
                    self.code_buffer = String::from_str(line.as_str());
                }
                let margin = self.left_margin();
                let width = self.current_width();
                let rendered = self.highlighter.render_code_line(
                    line.as_str(),
                    match &self.current_language {
                        Some(l) => Some(l.as_str()),
                        None => None,
                    },
                    margin.as_str(),
                    width,
                );
                let mut out = String::new();
                append_lines(&mut out, &rendered);
                self.column = 0;
                proof {
                    assert(code_block_out(out@, line@, pre.margin_of(), pre.avail_width_of()))
                        by {
                        assert(lines_joined(rendered.deep_view()) == out@);
                    }
                }
                out
            },
            Event::CodeBlockEnd => {
                self.current_language = None;
                self.code_buffer = String::new();
                String::new()
            },
            Event::ListItem { indent, bullet, content } => {
                let margin = self.left_margin();
                let width = self.current_width();
                let lines = render_list_item(
                    *indent,
                    bullet,
                    content.as_str(),
                    width,
                    margin.as_str(),
                    &self.styler,
                    &mut self.list_state,
                );
                let mut out = String::new();
                append_lines(&mut out, &lines);
                self.column = 0;
                out
            },
            Event::ListEnd => {
                self.list_state.mark_pending_reset();
                String::new()
            },
            Event::TableHeader(cols) => {
                self.table_rows.push(clone_row(cols));
                proof {
                    assert(self.table_rows.deep_view() =~= pre.table_of().push(cols.deep_view()));
                }
                String::new()
            },
            Event::TableRow(cols) => {
                self.table_rows.push(clone_row(cols));
                proof {
                    assert(self.table_rows.deep_view() =~= pre.table_of().push(cols.deep_view()));
                }
                String::new()
            },
            Event::TableSeparator => String::new(),
            Event::TableEnd => {
                let margin = self.left_margin();
                let lines = render_table(&self.table_rows, margin.as_str(), &self.styler,
                    self.width);
                self.table_rows = Vec::new();
                let mut out = String::new();
                append_lines(&mut out, &lines);
                if lines.len() > 0 {
                    self.column = 0;
                }
                proof {
                    assert(self.table_rows.deep_view() =~= Seq::<Seq<Seq<char>>>::empty());
                }
                out
            },
            Event::BlockquoteStart { depth } => {
                self.in_blockquote = true;
                self.blockquote_depth = *depth;
                String::new()
            },
            Event::BlockquoteLine(t) => {
                let margin = self.left_margin();
                let width = self.current_width();
                let wrapped = text_wrap(t.as_str(), width, margin.as_str(), margin.as_str());
                let mut out = String::new();
                if wrapped.is_empty() {
                    out.append(margin.as_str());
                    push_char(&mut out, '\n');
                } else {
                    append_lines(&mut out, &wrapped.lines);
                }
                self.column = 0;
                out
            },
            Event::BlockquoteEnd => {
                self.in_blockquote = false;
                self.blockquote_depth = 0;
                String::new()
            },
            Event::ThinkBlockStart => {
                let mut out = self.styler.think_border("\u{250c}\u{2500} thinking \u{2500}");
                push_char(&mut out, '\n');
                self.in_blockquote = true;
                self.blockquote_depth = 1;
                self.column = 0;
                out
            },
            Event::ThinkBlockLine(t) => {
                let mut out = self.styler.think_border("\u{2502}");
                out.append(" ");
                out.append(self.styler.think_body(t.as_str()).as_str());
                push_char(&mut out, '\n');
                self.column = 0;
                proof {
                    assert(out@ =~= pre.styler_of().think_border_spec("\u{2502}"@) + " "@
                        + pre.styler_of().think_body_spec(t@) + seq!['\n']);
                }
                out
            },
            Event::ThinkBlockEnd => {
                let mut out = self.styler.think_border("\u{2514}");
                push_char(&mut out, '\n');
                self.in_blockquote = false;
                self.blockquote_depth = 0;
                self.column = 0;
                out
            },
            Event::HorizontalRule => {
                let margin = self.left_margin();
                let width = self.current_width();
                let rule = repeat_char('\u{2500}', width);
                let mut out = String::from_str(margin.as_str());
                out.append(self.styler.rule(rule.as_str()).as_str());
                push_char(&mut out, '\n');
                self.column = 0;
                proof {
                    assert(out@ =~= pre.margin_of() + pre.styler_of().rule_spec(
                        char_seq('\u{2500}', pre.avail_width_of()),
                    ) + seq!['\n']);
                }
                out
            },
            Event::EmptyLine => {
                let mut out = String::new();
                push_char(&mut out, '\n');
                self.column = 0;
                proof {
                    assert(out@ =~= seq!['\n']);
                }
                out
            },
            Event::Newline => {
                let mut out = String::new();
                push_char(&mut out, '\n');
                self.column = 0;
                proof {
                    assert(out@ =~= seq!['\n']);
                }
                out
            },
        }
    }
}

/// Copy one table row.
fn clone_row(cols: &Vec<String>) -> (r: Vec<String>)
    ensures
        r.deep_view() == cols.deep_view(),
{
    let mut r: Vec<String> = Vec::new();
    let mut i: usize = 0;
    while i < cols.len()
        invariant
            i <= cols@.len(),
            r@.len() == i,
            forall|k: int| 0 <= k < i as int ==> (#[trigger] r.deep_view()[k]) == cols.deep_view()[k],
        decreases cols@.len() - i,
    {
        let ghost prev = r@;
        let ghost prev_dv = r.deep_view();
        r.push(cols[i].clone());
        proof {
            assert forall|k: int|
                0 <= k < i as int + 1 implies (#[trigger] r.deep_view()[k]) == cols.deep_view()[k] by {
                assert(r.deep_view()[k] == r@[k]@);
                assert(cols.deep_view()[k] == cols@[k]@);
                if k < i as int {
                    assert(r@[k] == prev[k]);
                    assert(prev_dv[k] == prev[k]@);
                    assert(prev_dv[k] == cols.deep_view()[k]);
                }
            }
        }
        i = i + 1;
    }
    proof {
        assert(r.deep_view() =~= cols.deep_view());
    }
    r
}

} // verus!
