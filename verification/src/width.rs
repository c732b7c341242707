//! Visible-width measurement of styled strings.
//!
//! A styled string mixes printable characters with ANSI escape sequences.
//! The visible width of such a string is the number of terminal columns its
//! printable characters occupy; every escape sequence, from the escape
//! character to its terminator, contributes nothing.

use vstd::prelude::*;

verus! {

/// The displayed column count of a single character, as the terminal width
/// tables define it. The exact value for characters outside ASCII is a
/// property of those tables, not of this crate.
pub uninterp spec fn char_width_raw(c: char) -> nat;

/// The displayed column count of `c`: printable ASCII is one column wide,
/// control characters are zero columns wide, everything else takes at most
/// three columns.
pub open spec fn char_width(c: char) -> nat {
    let u = c as u32;
    if 0x20 <= u && u < 0x7f {
        1
    } else if u < 0x20 || (0x7f <= u && u < 0xa0) {
        0
    } else if char_width_raw(c) <= 3 {
        char_width_raw(c)
    } else {
        3
    }
}

/// Relies on unicode_width::UnicodeWidthChar::width: printable ASCII is one
/// column, control characters (treated here as zero columns) report no
/// width, and every table entry is at most three columns.
#[verifier::external_body]
pub fn display_width(c: char) -> (r: usize)
    ensures
        r as nat == char_width(c),
        (c as u32 >= 0xa0 && char_width_raw(c) <= 3) ==> r as nat == char_width_raw(c),
{
    unicode_width::UnicodeWidthChar::width(c).unwrap_or(0)
}

/// Characters that terminate an escape sequence for width measurement.
pub open spec fn is_esc_end(c: char) -> bool {
    c == 'm' || c == 'K' || c == 'H' || c == 'J' || c == '\\'
}

/// One step of the escape-skipping state machine: the next value of the
/// "inside an escape sequence" flag after reading `c`.
pub open spec fn esc_step(in_esc: bool, c: char) -> bool {
    if in_esc {
        !is_esc_end(c)
    } else {
        c == '\x1b'
    }
}

/// The width contributed by `c` when the machine is in state `in_esc`.
pub open spec fn width_step(in_esc: bool, c: char) -> nat {
    if in_esc || c == '\x1b' {
        0
    } else {
        char_width(c)
    }
}

/// The visible width of `s`, starting in escape state `in_esc`.
pub open spec fn vis_width_from(s: Seq<char>, in_esc: bool) -> nat
    decreases s.len(),
{
    if s.len() == 0 {
        0
    } else {
        width_step(in_esc, s[0]) + vis_width_from(s.drop_first(), esc_step(in_esc, s[0]))
    }
}

/// The escape state after reading all of `s`, starting in state `in_esc`.
pub open spec fn esc_state_from(s: Seq<char>, in_esc: bool) -> bool
    decreases s.len(),
{
    if s.len() == 0 {
        in_esc
    } else {
        esc_state_from(s.drop_first(), esc_step(in_esc, s[0]))
    }
}

/// The visible width of a styled string: every character's display width,
/// with escape sequences skipped in their entirety.
pub open spec fn visible_width(s: Seq<char>) -> nat {
    vis_width_from(s, false)
}

/// A single character advances the machine by exactly one step.
pub proof fn lemma_vis_single(c: char, st: bool)
    ensures
        vis_width_from(seq![c], st) == width_step(st, c),
        esc_state_from(seq![c], st) == esc_step(st, c),
{
    reveal_with_fuel(vis_width_from, 2);
    reveal_with_fuel(esc_state_from, 2);
    assert(seq![c].drop_first() =~= Seq::<char>::empty());
}

/// Width and escape state both distribute over concatenation: the second
/// part is measured from the state the first part ends in.
pub proof fn lemma_vis_decompose(a: Seq<char>, b: Seq<char>, st: bool)
    ensures
        vis_width_from(a + b, st) == vis_width_from(a, st) + vis_width_from(
            b,
            esc_state_from(a, st),
        ),
        esc_state_from(a + b, st) == esc_state_from(b, esc_state_from(a, st)),
    decreases a.len(),
{
    if a.len() == 0 {
        assert(a + b =~= b);
    } else {
        assert((a + b)[0] == a[0]);
        assert((a + b).drop_first() =~= a.drop_first() + b);
        lemma_vis_decompose(a.drop_first(), b, esc_step(st, a[0]));
    }
}

/// The visible width never exceeds three columns per character.
pub proof fn lemma_vis_bound(s: Seq<char>, st: bool)
    ensures
        vis_width_from(s, st) <= 3 * s.len(),
    decreases s.len(),
{
    if s.len() > 0 {
        lemma_vis_bound(s.drop_first(), esc_step(st, s[0]));
    }
}

/// The visible width of `s`, saturated at the machine-word limit. Equal to
/// `visible_width` on anything that fits in memory.
pub open spec fn visible_width_sat(s: Seq<char>) -> nat {
    if visible_width(s) <= usize::MAX as nat {
        visible_width(s)
    } else {
        usize::MAX as nat
    }
}

/// Measure the visible width of `s`. The result is exact whenever it fits
/// in a machine word, and saturates otherwise.
pub fn visible_length(s: &str) -> (r: usize)
    ensures
        r as nat == visible_width_sat(s@),
        visible_width(s@) <= usize::MAX as nat ==> r as nat == visible_width(s@),
{
    let n = s.unicode_len();
    let mut len: usize = 0;
    let mut in_esc: bool = false;
    let mut i: usize = 0;
    while i < n
        invariant
            i <= n,
            n as nat == s@.len(),
            in_esc == esc_state_from(s@.subrange(0, i as int), false),
            ({
                let v = vis_width_from(s@.subrange(0, i as int), false);
                if v <= usize::MAX as nat {
                    len as nat == v
                } else {
                    len == usize::MAX
                }
            }),
        decreases n - i,
    {
        let ghost pre = s@.subrange(0, i as int);
        let c = s.get_char(i);
        proof {
            assert(s@.subrange(0, i as int + 1) =~= pre + seq![c]);
            lemma_vis_decompose(pre, seq![c], false);
            lemma_vis_single(c, esc_state_from(pre, false));
        }
        if in_esc {
            if c == 'm' || c == 'K' || c == 'H' || c == 'J' || c == '\\' {
                in_esc = false;
            }
        } else if c == '\x1b' {
            in_esc = true;
        } else {
            let w = display_width(c);
            len = len.saturating_add(w);
        }
        i = i + 1;
    }
    proof {
        assert(s@.subrange(0, n as int) =~= s@);
    }
    len
}

/// A complete escape sequence: the escape character, some characters none
/// of which would terminate it, and a final terminator.
pub open spec fn is_escape_sequence(e: Seq<char>) -> bool {
    &&& e.len() >= 2
    &&& e[0] == '\x1b'
    &&& is_esc_end(e[e.len() - 1])
    &&& forall|i: int| 1 <= i < e.len() - 1 ==> !is_esc_end(#[trigger] e[i])
}

/// A complete escape sequence has no visible width and leaves the machine
/// outside any escape.
pub proof fn lemma_escape_sequence_invisible(e: Seq<char>)
    requires
        is_escape_sequence(e),
    ensures
        vis_width_from(e, false) == 0,
        esc_state_from(e, false) == false,
{
    let body = e.drop_first();
    lemma_escape_body(body);
}

proof fn lemma_escape_body(b: Seq<char>)
    requires
        b.len() >= 1,
        is_esc_end(b[b.len() - 1]),
        forall|i: int| 0 <= i < b.len() - 1 ==> !is_esc_end(#[trigger] b[i]),
    ensures
        vis_width_from(b, true) == 0,
        esc_state_from(b, true) == false,
    decreases b.len(),
{
    if b.len() == 1 {
        assert(b =~= seq![b[0]]);
        lemma_vis_single(b[0], true);
    } else {
        assert(!is_esc_end(b[0]));
        let rest = b.drop_first();
        assert(rest[rest.len() - 1] == b[b.len() - 1]);
        assert forall|i: int| 0 <= i < rest.len() - 1 implies !is_esc_end(#[trigger] rest[i]) by {
            assert(rest[i] == b[i + 1]);
        }
        lemma_escape_body(rest);
    }
}

/// A string without the escape character is measured literally.
pub proof fn lemma_plain_text(s: Seq<char>)
    requires
        forall|i: int| 0 <= i < s.len() ==> #[trigger] s[i] != '\x1b',
    ensures
        esc_state_from(s, false) == false,
    decreases s.len(),
{
    if s.len() > 0 {
        lemma_plain_text(s.drop_first());
    }
}

/// Escape sequences are invisible: a styled fragment built from a style
/// start, plain visible text, and a style reset measures exactly as the
/// text alone does.
pub proof fn lemma_visible_width_ignores_escapes(
    style: Seq<char>,
    mid: Seq<char>,
    reset: Seq<char>,
)
    requires
        is_escape_sequence(style),
        is_escape_sequence(reset),
        forall|i: int| 0 <= i < mid.len() ==> #[trigger] mid[i] != '\x1b',
    ensures
        visible_width(style + mid + reset) == visible_width(mid),
{
    lemma_escape_sequence_invisible(style);
    lemma_escape_sequence_invisible(reset);
    lemma_plain_text(mid);
    lemma_vis_decompose(style, mid + reset, false);
    lemma_vis_decompose(mid, reset, false);
    assert(style + mid + reset =~= style + (mid + reset));
}

} // verus!
