//! Nested-list tracking: a stack of list frames keyed by indentation, a
//! parallel ordinal counter per frame, and the pending-reset protocol that
//! keeps a list alive across blank lines.

use vstd::prelude::*;
use crate::inline::{parsed_inline, pieces_decoded, render_inline_content, rendered_pieces, InlineTok};
use crate::strutil::{push_char, spaces, space_string, decimal_digits, usize_to_string, sat_add, sat_mul2};
use crate::style::BlockStyler;
use crate::text::{wrap_spec, wrap_within_limits, text_wrap};
use crate::width::{visible_width_sat, visible_length};

verus! {

/// List rendering state for tracking nesting and numbering.
pub struct ListState {
    stack: Vec<(usize, bool)>,
    numbers: Vec<usize>,
    pending_reset: bool,
}

impl ListState {
    /// The stack of `(indent, is_ordered)` frames, bottom first.
    pub closed spec fn frames(&self) -> Seq<(usize, bool)> {
        self.stack@
    }

    /// The per-frame ordinal counters, parallel to `frames`.
    pub closed spec fn counters(&self) -> Seq<usize> {
        self.numbers@
    }

    /// Whether a list-end boundary has been seen and not yet resolved.
    pub closed spec fn pending(&self) -> bool {
        self.pending_reset
    }

    /// Well-formed list state: one counter per frame, and frame indents
    /// strictly increasing from bottom to top.
    pub open spec fn wf(&self) -> bool {
        &&& self.frames().len() == self.counters().len()
        &&& forall|i: int, j: int|
            0 <= i < j < self.frames().len() ==> (#[trigger] self.frames()[i]).0 < (
            #[trigger] self.frames()[j]).0
    }

    pub fn new() -> (r: Self)
        ensures
            r.frames().len() == 0,
            r.counters().len() == 0,
            !r.pending(),
            r.wf(),
    {
        ListState { stack: Vec::new(), numbers: Vec::new(), pending_reset: false }
    }

    /// The current nesting depth.
    pub fn level(&self) -> (r: usize)
        ensures
            r as nat == self.frames().len(),
    {
        self.stack.len()
    }

    /// Push a new frame with a fresh counter.
    pub fn push(&mut self, indent: usize, ordered: bool)
        ensures
            final(self).frames() == old(self).frames().push((indent, ordered)),
            final(self).counters() == old(self).counters().push(0),
            final(self).pending() == old(self).pending(),
    {
        self.stack.push((indent, ordered));
        self.numbers.push(0);
    }

    /// Pop the top frame and its counter, if any.
    pub fn pop(&mut self)
        ensures
            old(self).frames().len() > 0 ==> final(self).frames() == old(self).frames().drop_last(),
            old(self).frames().len() == 0 ==> final(self).frames() == old(self).frames(),
            old(self).counters().len() > 0 ==> final(self).counters() == old(
                self,
            ).counters().drop_last(),
            old(self).counters().len() == 0 ==> final(self).counters() == old(self).counters(),
            final(self).pending() == old(self).pending(),
    {
        let _ = self.stack.pop();
        let _ = self.numbers.pop();
    }

    /// Advance and return the ordinal of the innermost frame; a state
    /// without frames answers 1 without changing anything. The counter
    /// stops growing at the machine-word limit instead of overflowing.
    pub fn next_number(&mut self) -> (r: usize)
        ensures
            final(self).frames() == old(self).frames(),
            final(self).pending() == old(self).pending(),
            old(self).counters().len() == 0 ==> r == 1 && final(self).counters() == old(
                self,
            ).counters(),
            old(self).counters().len() > 0 ==> {
                let prev = old(self).counters().last();
                let next: usize = if prev < usize::MAX {
                    (prev + 1) as usize
                } else {
                    prev
                };
                &&& r == next
                &&& final(self).counters() == old(self).counters().update(
                    old(self).counters().len() - 1,
                    next,
                )
            },
    {
        let len = self.numbers.len();
        if len > 0 {
            let n = self.numbers[len - 1];
            let next = if n < usize::MAX {
                n + 1
            } else {
                n
            };
            self.numbers.set(len - 1, next);
            next
        } else {
            1
        }
    }

    /// Drop every frame strictly deeper than `indent`.
    pub open spec fn frames_at_or_above(frames: Seq<(usize, bool)>, indent: usize) -> Seq<
        (usize, bool),
    >
        decreases frames.len(),
    {
        if frames.len() > 0 && frames.last().0 > indent {
            Self::frames_at_or_above(frames.drop_last(), indent)
        } else {
            frames
        }
    }

    /// Whether, after popping deeper frames, a new frame is needed for an
    /// item at `indent`: yes when no frame is left or the top frame is
    /// shallower than the item.
    pub open spec fn needs_push(frames: Seq<(usize, bool)>, indent: usize) -> bool {
        let kept = Self::frames_at_or_above(frames, indent);
        kept.len() == 0 || kept.last().0 < indent
    }

    /// Adapt the stack to an item at `indent`: pop frames deeper than the
    /// item, then open a new frame if the item is deeper than what is left.
    pub fn adjust_for_indent(&mut self, indent: usize, ordered: bool)
        requires
            old(self).wf(),
        ensures
            ({
                let kept = Self::frames_at_or_above(old(self).frames(), indent);
                let kcount = old(self).counters().subrange(0, kept.len() as int);
                if Self::needs_push(old(self).frames(), indent) {
                    &&& final(self).frames() == kept.push((indent, ordered))
                    &&& final(self).counters() == kcount.push(0)
                } else {
                    &&& final(self).frames() == kept
                    &&& final(self).counters() == kcount
                }
            }),
            final(self).pending() == old(self).pending(),
            final(self).wf(),
    {
        let mut done = false;
        while !done
            invariant
                old(self).wf(),
                self.wf(),
                self.frames().len() <= old(self).frames().len(),
                self.frames() == old(self).frames().subrange(0, self.frames().len() as int),
                self.counters() == old(self).counters().subrange(0, self.frames().len() as int),
                Self::frames_at_or_above(self.frames(), indent) == Self::frames_at_or_above(
                    old(self).frames(),
                    indent,
                ),
                self.pending() == old(self).pending(),
                done ==> self.frames() == Self::frames_at_or_above(old(self).frames(), indent),
            decreases self.frames().len() + (if done {
                0int
            } else {
                1int
            }),
        {
            let len = self.stack.len();
            if len == 0 {
                done = true;
            } else {
                let frame = self.stack[len - 1];
                if frame.0 > indent {
                    proof {
                        assert(self.frames().last().0 > indent);
                    }
                    let ghost prev = *self;
                    self.pop();
                    proof {
                        assert(self.frames() =~= prev.frames().drop_last());
                        assert(self.counters() =~= prev.counters().drop_last());
                        assert(self.frames() =~= old(self).frames().subrange(
                            0,
                            self.frames().len() as int,
                        ));
                        assert(self.counters() =~= old(self).counters().subrange(
                            0,
                            self.frames().len() as int,
                        ));
                    }
                } else {
                    done = true;
                }
            }
        }
        let need_push = if self.stack.len() == 0 {
            true
        } else {
            let frame = self.stack[self.stack.len() - 1];
            indent > frame.0
        };
        if need_push {
            self.push(indent, ordered);
        }
    }

    /// Clear every frame and counter and the pending flag.
    pub fn reset(&mut self)
        ensures
            final(self).frames().len() == 0,
            final(self).counters().len() == 0,
            !final(self).pending(),
            final(self).wf(),
    {
        self.stack.clear();
        self.numbers.clear();
        self.pending_reset = false;
    }

    /// Mark the list as possibly ending: a list-end boundary was seen, but
    /// a following item may still continue the list.
    pub fn mark_pending_reset(&mut self)
        ensures
            final(self).frames() == old(self).frames(),
            final(self).counters() == old(self).counters(),
            final(self).pending(),
    {
        self.pending_reset = true;
    }

    /// A new list item arrived: the list continues, so the pending flag is
    /// cleared.
    pub fn resume_if_pending(&mut self)
        ensures
            final(self).frames() == old(self).frames(),
            final(self).counters() == old(self).counters(),
            !final(self).pending(),
    {
        self.pending_reset = false;
    }
}

/// The kind of marker a list item carries. The ordinal attached to an
/// ordered bullet is carried through but deliberately not displayed: the
/// renderer keeps its own counter per nesting level.
#[derive(Clone, Copy)]
pub enum Bullet {
    Dash,
    Asterisk,
    Plus,
    PlusExpand,
    Ordered(usize),
}

/// The four-glyph bullet palette, cycled by nesting level.
pub open spec fn bullet_glyph(level: nat) -> Seq<char> {
    if level % 4 == 0 {
        "\u{2022}"@
    } else if level % 4 == 1 {
        "\u{25e6}"@
    } else if level % 4 == 2 {
        "\u{25aa}"@
    } else {
        "\u{2023}"@
    }
}

fn bullet_for_level(level: usize) -> (r: &'static str)
    ensures
        r@ == bullet_glyph(level as nat),
{
    let m = level % 4;
    if m == 0 {
        "\u{2022}"
    } else if m == 1 {
        "\u{25e6}"
    } else if m == 2 {
        "\u{25aa}"
    } else {
        "\u{2023}"
    }
}

/// The frame stack after adapting to an item at `indent`.
pub open spec fn adjusted_frames(frames: Seq<(usize, bool)>, indent: usize, ordered: bool) -> Seq<
    (usize, bool),
> {
    let kept = ListState::frames_at_or_above(frames, indent);
    if ListState::needs_push(frames, indent) {
        kept.push((indent, ordered))
    } else {
        kept
    }
}

/// The counters after adapting to an item at `indent`.
pub open spec fn adjusted_counters(
    frames: Seq<(usize, bool)>,
    counters: Seq<usize>,
    indent: usize,
) -> Seq<usize> {
    let kept = ListState::frames_at_or_above(frames, indent);
    let kcount = counters.subrange(0, kept.len() as int);
    if ListState::needs_push(frames, indent) {
        kcount.push(0)
    } else {
        kcount
    }
}

pub open spec fn sat_inc(n: usize) -> usize {
    if n < usize::MAX {
        (n + 1) as usize
    } else {
        n
    }
}

/// The ordinal an ordered item at `indent` receives from a state with the
/// given frames and counters: the adapted innermost counter plus one.
pub open spec fn ordered_item_number(
    frames: Seq<(usize, bool)>,
    counters: Seq<usize>,
    indent: usize,
) -> usize {
    let cs = adjusted_counters(frames, counters, indent);
    if cs.len() > 0 {
        sat_inc(cs.last())
    } else {
        1
    }
}

/// The unstyled marker of a list item: the internal ordinal followed by a
/// dot for ordered items, the expansion glyph for a plus-expand bullet,
/// and the level-cycled palette glyph otherwise.
pub open spec fn item_marker(
    frames: Seq<(usize, bool)>,
    counters: Seq<usize>,
    indent: usize,
    bullet: Bullet,
) -> Seq<char> {
    match bullet {
        Bullet::Ordered(_) => decimal_digits(
            ordered_item_number(frames, counters, indent) as nat,
        ).push('.'),
        Bullet::PlusExpand => "\u{229e}"@,
        _ => {
            let frames1 = adjusted_frames(frames, indent, false);
            let lvl: nat = if frames1.len() > 0 {
                (frames1.len() - 1) as nat
            } else {
                0
            };
            bullet_glyph(lvl)
        },
    }
}

/// The output lines of one list item whose inline content rendered to
/// `rendered`: the marker is styled, the first line carries margin,
/// nesting padding, marker and one space, continuation lines align under
/// the item's text, and an item whose wrap is empty still produces its
/// marker line.
pub open spec fn list_item_lines<S: BlockStyler>(
    styler: &S,
    frames: Seq<(usize, bool)>,
    counters: Seq<usize>,
    indent: usize,
    bullet: Bullet,
    rendered: Seq<char>,
    width: usize,
    margin: Seq<char>,
) -> Seq<Seq<char>> {
    let marker = item_marker(frames, counters, indent, bullet);
    let styled = if bullet is Ordered {
        styler.ordinal_spec(marker)
    } else {
        styler.bullet_spec(marker)
    };
    let ind2 = sat_mul2(indent);
    let fp = margin + spaces(ind2) + styled + " "@;
    let cind = sat_add(sat_add(ind2, visible_width_sat(marker)), 1);
    let np = margin + spaces(cind);
    let lw = if wrap_within_limits(rendered, fp, np) {
        wrap_spec(rendered, width as nat, fp, np)
    } else {
        seq![]
    };
    if lw.len() == 0 {
        seq![fp]
    } else {
        lw
    }
}

/// Render one list item: resume a pending list, adapt the nesting stack,
/// choose and style the marker, render the inline content, and wrap it so
/// continuation lines align under the item's text.
pub fn render_list_item<S: BlockStyler>(
    indent: usize,
    bullet: &Bullet,
    content: &str,
    width: usize,
    margin: &str,
    styler: &S,
    list_state: &mut ListState,
) -> (r: Vec<String>)
    requires
        old(list_state).wf(),
    ensures
        final(list_state).wf(),
        !final(list_state).pending(),
        final(list_state).frames() == adjusted_frames(
            old(list_state).frames(),
            indent,
            *bullet is Ordered,
        ),
        ({
            let counters1 = adjusted_counters(
                old(list_state).frames(),
                old(list_state).counters(),
                indent,
            );
            if *bullet is Ordered {
                counters1.len() > 0 && final(list_state).counters() == counters1.update(
                    counters1.len() - 1,
                    sat_inc(counters1.last()),
                )
            } else {
                final(list_state).counters() == counters1
            }
        }),
        exists|dec: Seq<InlineTok>|
            pieces_decoded(parsed_inline(content@), dec) && r.deep_view() == list_item_lines(
                styler,
                old(list_state).frames(),
                old(list_state).counters(),
                indent,
                *bullet,
                rendered_pieces(styler, dec),
                width,
                margin@,
            ),
{
    let ghost frames0 = old(list_state).frames();
    let ghost counters0 = old(list_state).counters();
    list_state.resume_if_pending();
    let ordered = matches!(bullet, Bullet::Ordered(_));
    list_state.adjust_for_indent(indent, ordered);

    let level0 = list_state.level();
    let level = if level0 > 0 {
        level0 - 1
    } else {
        0
    };

    let marker = match bullet {
        Bullet::Ordered(_) => {
            let num = list_state.next_number();
            let mut m = usize_to_string(num);
            push_char(&mut m, '.');
            m
        },
        Bullet::PlusExpand => String::from_str("\u{229e}"),
        _ => String::from_str(bullet_for_level(level)),
    };
    proof {
        assert(marker@ == item_marker(frames0, counters0, indent, *bullet));
    }

    let colored_marker = if ordered {
        styler.ordinal(marker.as_str())
    } else {
        styler.bullet(marker.as_str())
    };

    let rendered_content = render_inline_content(content, styler);

    let indent_spaces = match indent.checked_mul(2) {
        Some(v) => v,
        None => usize::MAX,
    };
    let marker_width = visible_length(marker.as_str());
    let content_indent_a = match indent_spaces.checked_add(marker_width) {
        Some(v) => v,
        None => usize::MAX,
    };
    let content_indent = match content_indent_a.checked_add(1) {
        Some(v) => v,
        None => usize::MAX,
    };

    let mut first_prefix = String::from_str(margin);
    first_prefix.append(space_string(indent_spaces).as_str());
    first_prefix.append(colored_marker.as_str());
    first_prefix.append(" ");
    let mut next_prefix = String::from_str(margin);
    next_prefix.append(space_string(content_indent).as_str());

    let ghost gmarker = marker@;
    let ghost gstyled = if *bullet is Ordered {
        styler.ordinal_spec(gmarker)
    } else {
        styler.bullet_spec(gmarker)
    };
    proof {
        assert(first_prefix@ =~= margin@ + spaces(sat_mul2(indent)) + gstyled + " "@);
        assert(next_prefix@ =~= margin@ + spaces(
            sat_add(sat_add(sat_mul2(indent), visible_width_sat(gmarker)), 1),
        ));
    }

    let wrapped = text_wrap(rendered_content.as_str(), width, first_prefix.as_str(),
        next_prefix.as_str());

    let ghost dec_witness = choose|dec: Seq<InlineTok>|
        pieces_decoded(parsed_inline(content@), dec) && rendered_content@ == rendered_pieces(
            styler,
            dec,
        );

    if wrapped.is_empty() {
        let mut out: Vec<String> = Vec::new();
        out.push(first_prefix);
        proof {
            assert(out.deep_view() =~= seq![
                margin@ + spaces(sat_mul2(indent)) + gstyled + " "@,
            ]);
        }
        out
    } else {
        wrapped.lines
    }
}

/// An ordered item that opens a new list level is numbered 1: the fresh
/// frame's counter starts at zero and the first item advances it to one.
pub proof fn lemma_first_ordinal(frames: Seq<(usize, bool)>, counters: Seq<usize>, indent: usize)
    requires
        ListState::needs_push(frames, indent),
    ensures
        ordered_item_number(frames, counters, indent) == 1,
{
}

/// For consecutive ordered items at a constant indent the emitted numbers
/// rise by exactly one, whatever ordinal the source events carried: the
/// item leaves the frame stack unchanged and advances only the innermost
/// counter.
pub proof fn lemma_ordinal_monotonic(
    frames: Seq<(usize, bool)>,
    counters: Seq<usize>,
    indent: usize,
)
    requires
        frames.len() > 0,
        frames.len() == counters.len(),
        frames.last().0 == indent,
        counters.last() < usize::MAX,
    ensures
        adjusted_frames(frames, indent, true) == frames,
        ordered_item_number(frames, counters, indent) == counters.last() + 1,
        adjusted_counters(frames, counters, indent).update(
            counters.len() - 1,
            (counters.last() + 1) as usize,
        ) == counters.update(counters.len() - 1, (counters.last() + 1) as usize),
        ordered_item_number(
            frames,
            counters.update(counters.len() - 1, (counters.last() + 1) as usize),
            indent,
        ) == counters.last() + 2 || counters.last() + 1 == usize::MAX,
{
    assert(ListState::frames_at_or_above(frames, indent) == frames);
    assert(!ListState::needs_push(frames, indent));
    assert(counters.subrange(0, counters.len() as int) =~= counters);
    let c2 = counters.update(counters.len() - 1, (counters.last() + 1) as usize);
    assert(c2.subrange(0, c2.len() as int) =~= c2);
    assert(adjusted_frames(frames, indent, true) =~= frames);
}

} // verus!
