//! Word-boundary text wrapping that keeps embedded ANSI escape sequences
//! attached to the words they style.

use vstd::prelude::*;
use crate::strutil::{is_space, is_space_char, push_char};
use crate::width::{
    char_width, esc_state_from, esc_step, lemma_vis_bound, lemma_vis_decompose, lemma_vis_single,
    visible_length, visible_width,
};

verus! {

/// State of the word splitter: the words produced so far, the word being
/// built, the escape sequence being buffered, and whether the machine is
/// inside an escape sequence.
pub ghost struct SplitState {
    pub words: Seq<Seq<char>>,
    pub cur: Seq<char>,
    pub esc: Seq<char>,
    pub in_esc: bool,
}

pub open spec fn split_init() -> SplitState {
    SplitState { words: seq![], cur: seq![], esc: seq![], in_esc: false }
}

/// One character of the word splitter. Whitespace outside an escape
/// sequence ends the current word; an escape sequence is buffered until its
/// `m` terminator and then attached whole to the current word.
pub open spec fn split_step(st: SplitState, c: char) -> SplitState {
    if st.in_esc {
        if c == 'm' {
            SplitState { words: st.words, cur: st.cur + st.esc.push(c), esc: seq![], in_esc: false }
        } else {
            SplitState { words: st.words, cur: st.cur, esc: st.esc.push(c), in_esc: true }
        }
    } else if c == '\x1b' {
        SplitState { words: st.words, cur: st.cur, esc: st.esc.push(c), in_esc: true }
    } else if is_space_char(c) {
        if st.cur.len() > 0 {
            SplitState { words: st.words.push(st.cur), cur: seq![], esc: st.esc, in_esc: false }
        } else {
            st
        }
    } else {
        SplitState { words: st.words, cur: st.cur.push(c), esc: st.esc, in_esc: false }
    }
}

pub open spec fn split_run(st: SplitState, s: Seq<char>) -> SplitState {
    s.fold_left(st, |st: SplitState, c: char| split_step(st, c))
}

/// Flush the splitter: an unfinished escape sequence joins the current
/// word, and a nonempty current word becomes the last word.
pub open spec fn split_finish(st: SplitState) -> Seq<Seq<char>> {
    let cur2 = st.cur + st.esc;
    if cur2.len() > 0 {
        st.words.push(cur2)
    } else {
        st.words
    }
}

/// The whitespace-delimited words of a styled string, with escape
/// sequences kept attached to their neighbouring word.
pub open spec fn split_spec(s: Seq<char>) -> Seq<Seq<char>> {
    split_finish(split_run(split_init(), s))
}

/// Appending one character to the input advances the splitter by one step.
pub proof fn lemma_split_run_push(st: SplitState, s: Seq<char>, c: char)
    ensures
        split_run(st, s.push(c)) == split_step(split_run(st, s), c),
{
    reveal_with_fuel(Seq::fold_left, 2);
    assert(s.push(c).drop_last() =~= s);
    assert(s.push(c).last() == c);
}

/// Result of wrapping text.
pub struct WrappedText {
    pub lines: Vec<String>,
}

impl WrappedText {
    /// The empty wrap result: no lines at all.
    pub fn empty() -> (r: Self)
        ensures
            r.lines@.len() == 0,
    {
        WrappedText { lines: Vec::new() }
    }

    /// Whether the result holds no lines.
    pub fn is_empty(&self) -> (r: bool)
        ensures
            r == (self.lines@.len() == 0),
    {
        self.lines.len() == 0
    }
}

/// Split text into words while keeping escape sequences attached.
pub fn split_text(text: &str) -> (r: Vec<String>)
    ensures
        r.deep_view() == split_spec(text@),
{
    let n = text.unicode_len();
    let mut words: Vec<String> = Vec::new();
    let mut current = String::new();
    let mut escape_buf = String::new();
    let mut in_escape = false;
    let mut i: usize = 0;
    while i < n
        invariant
            i <= n,
            n as nat == text@.len(),
            ({
                let st = split_run(split_init(), text@.subrange(0, i as int));
                &&& words.deep_view() == st.words
                &&& current@ == st.cur
                &&& escape_buf@ == st.esc
                &&& in_escape == st.in_esc
            }),
        decreases n - i,
    {
        let ghost pre = text@.subrange(0, i as int);
        let ghost st = split_run(split_init(), pre);
        let ch = text.get_char(i);
        proof {
            assert(text@.subrange(0, i as int + 1) =~= pre.push(ch));
            lemma_split_run_push(split_init(), pre, ch);
        }
        if in_escape {
            push_char(&mut escape_buf, ch);
            if ch == 'm' {
                current.append(escape_buf.as_str());
                escape_buf = String::new();
                in_escape = false;
            }
        } else if ch == '\x1b' {
            in_escape = true;
            push_char(&mut escape_buf, ch);
        } else if is_space(ch) {
            if !current.as_str().is_empty() {
                let ghost old_words = words.deep_view();
                words.push(current);
                current = String::new();
                proof {
                    assert(words.deep_view() =~= old_words.push(st.cur));
                }
            }
        } else {
            push_char(&mut current, ch);
        }
        i = i + 1;
    }
    proof {
        assert(text@.subrange(0, n as int) =~= text@);
    }
    if !escape_buf.as_str().is_empty() {
        current.append(escape_buf.as_str());
    }
    if !current.as_str().is_empty() {
        let ghost old_words = words.deep_view();
        let ghost w = current@;
        words.push(current);
        proof {
            assert(words.deep_view() =~= old_words.push(w));
        }
    }
    proof {
        let st = split_run(split_init(), text@);
        assert(st.cur + st.esc =~= if st.esc.len() > 0 {
            st.cur + st.esc
        } else {
            st.cur
        });
        if st.esc.len() == 0 {
            assert(st.cur + st.esc =~= st.cur);
        }
    }
    words
}

/// State of the plain-text word splitter: words produced so far and the
/// word being built. No escape handling here.
pub ghost struct PlainSplitState {
    pub words: Seq<Seq<char>>,
    pub cur: Seq<char>,
}

pub open spec fn plain_split_step(st: PlainSplitState, c: char) -> PlainSplitState {
    if is_space_char(c) {
        if st.cur.len() > 0 {
            PlainSplitState { words: st.words.push(st.cur), cur: seq![] }
        } else {
            st
        }
    } else {
        PlainSplitState { words: st.words, cur: st.cur.push(c) }
    }
}

pub open spec fn plain_split_run(st: PlainSplitState, s: Seq<char>) -> PlainSplitState {
    s.fold_left(st, |st: PlainSplitState, c: char| plain_split_step(st, c))
}

/// The whitespace-delimited words of a plain string.
pub open spec fn plain_split_spec(s: Seq<char>) -> Seq<Seq<char>> {
    let st = plain_split_run(PlainSplitState { words: seq![], cur: seq![] }, s);
    if st.cur.len() > 0 {
        st.words.push(st.cur)
    } else {
        st.words
    }
}

proof fn lemma_plain_split_run_push(st: PlainSplitState, s: Seq<char>, c: char)
    ensures
        plain_split_run(st, s.push(c)) == plain_split_step(plain_split_run(st, s), c),
{
    reveal_with_fuel(Seq::fold_left, 2);
    assert(s.push(c).drop_last() =~= s);
    assert(s.push(c).last() == c);
}

fn plain_words(text: &str) -> (r: Vec<String>)
    ensures
        r.deep_view() == plain_split_spec(text@),
{
    let n = text.unicode_len();
    let mut words: Vec<String> = Vec::new();
    let mut current = String::new();
    let mut i: usize = 0;
    while i < n
        invariant
            i <= n,
            n as nat == text@.len(),
            ({
                let st = plain_split_run(
                    PlainSplitState { words: seq![], cur: seq![] },
                    text@.subrange(0, i as int),
                );
                &&& words.deep_view() == st.words
                &&& current@ == st.cur
            }),
        decreases n - i,
    {
        let ghost pre = text@.subrange(0, i as int);
        let ghost st = plain_split_run(PlainSplitState { words: seq![], cur: seq![] }, pre);
        let ch = text.get_char(i);
        proof {
            assert(text@.subrange(0, i as int + 1) =~= pre.push(ch));
            lemma_plain_split_run_push(PlainSplitState { words: seq![], cur: seq![] }, pre, ch);
        }
        if is_space(ch) {
            if !current.as_str().is_empty() {
                let ghost old_words = words.deep_view();
                words.push(current);
                current = String::new();
                proof {
                    assert(words.deep_view() =~= old_words.push(st.cur));
                }
            }
        } else {
            push_char(&mut current, ch);
        }
        i = i + 1;
    }
    proof {
        assert(text@.subrange(0, n as int) =~= text@);
    }
    if !current.as_str().is_empty() {
        let ghost old_words = words.deep_view();
        let ghost w = current@;
        words.push(current);
        proof {
            assert(words.deep_view() =~= old_words.push(w));
        }
    }
    words
}

/// State of the plain greedy packer.
pub ghost struct PlainWrapState {
    pub lines: Seq<Seq<char>>,
    pub cur: Seq<char>,
}

/// Greedy packing by character count: a word joins the current line when
/// line, space and word together stay within the width.
pub open spec fn plain_wrap_step(st: PlainWrapState, w: Seq<char>, width: nat) -> PlainWrapState {
    if st.cur.len() == 0 {
        PlainWrapState { lines: st.lines, cur: w }
    } else if st.cur.len() + 1 + w.len() <= width {
        PlainWrapState { lines: st.lines, cur: st.cur + seq![' '] + w }
    } else {
        PlainWrapState { lines: st.lines.push(st.cur), cur: w }
    }
}

pub open spec fn plain_wrap_run(st: PlainWrapState, words: Seq<Seq<char>>, width: nat) -> PlainWrapState {
    words.fold_left(st, |st: PlainWrapState, w: Seq<char>| plain_wrap_step(st, w, width))
}

/// The lines of a plain-text greedy wrap: zero width or empty text echo
/// the text back as one line; otherwise words pack greedily by character
/// count and a wrap without any word yields one empty line.
pub open spec fn simple_wrap_spec(text: Seq<char>, width: nat) -> Seq<Seq<char>> {
    if width == 0 || text.len() == 0 {
        seq![text]
    } else {
        let st = plain_wrap_run(
            PlainWrapState { lines: seq![], cur: seq![] },
            plain_split_spec(text),
            width,
        );
        let lines = if st.cur.len() > 0 {
            st.lines.push(st.cur)
        } else {
            st.lines
        };
        if lines.len() == 0 {
            seq![Seq::<char>::empty()]
        } else {
            lines
        }
    }
}

proof fn lemma_plain_wrap_run_push(st: PlainWrapState, words: Seq<Seq<char>>, w: Seq<char>, width: nat)
    ensures
        plain_wrap_run(st, words.push(w), width) == plain_wrap_step(
            plain_wrap_run(st, words, width),
            w,
            width,
        ),
{
    reveal_with_fuel(Seq::fold_left, 2);
    assert(words.push(w).drop_last() =~= words);
    assert(words.push(w).last() == w);
}

/// Simple text wrap for plain text, by character counts.
pub fn simple_wrap(text: &str, width: usize) -> (r: Vec<String>)
    ensures
        r.deep_view() == simple_wrap_spec(text@, width as nat),
{
    if width == 0 || text.is_empty() {
        let mut r: Vec<String> = Vec::new();
        r.push(String::from_str(text));
        proof {
            assert(r.deep_view() =~= seq![text@]);
        }
        return r;
    }
    let words = plain_words(text);
    let mut lines: Vec<String> = Vec::new();
    let mut current = String::new();
    let mut j: usize = 0;
    while j < words.len()
        invariant
            j <= words.len(),
            width > 0,
            words.deep_view() == plain_split_spec(text@),
            ({
                let st = plain_wrap_run(
                    PlainWrapState { lines: seq![], cur: seq![] },
                    plain_split_spec(text@).subrange(0, j as int),
                    width as nat,
                );
                &&& lines.deep_view() == st.lines
                &&& current@ == st.cur
            }),
        decreases words.len() - j,
    {
        let ghost ws = plain_split_spec(text@);
        let ghost pre = ws.subrange(0, j as int);
        let ghost st = plain_wrap_run(
            PlainWrapState { lines: seq![], cur: seq![] },
            pre,
            width as nat,
        );
        proof {
            assert(ws.subrange(0, j as int + 1) =~= pre.push(ws[j as int]));
            lemma_plain_wrap_run_push(
                PlainWrapState { lines: seq![], cur: seq![] },
                pre,
                ws[j as int],
                width as nat,
            );
        }
        let word = &words[j];
        let word_len = word.as_str().unicode_len();
        let current_len = current.as_str().unicode_len();
        if current.as_str().is_empty() {
            current = String::from_str(word.as_str());
        } else {
            let fits = match current_len.checked_add(1) {
                Some(a) => match a.checked_add(word_len) {
                    Some(b) => b <= width,
                    None => false,
                },
                None => false,
            };
            if fits {
                push_char(&mut current, ' ');
                current.append(word.as_str());
                proof {
                    assert(current@ =~= st.cur + seq![' '] + ws[j as int]);
                }
            } else {
                let ghost old_lines = lines.deep_view();
                lines.push(current);
                current = String::from_str(word.as_str());
                proof {
                    assert(lines.deep_view() =~= old_lines.push(st.cur));
                }
            }
        }
        j = j + 1;
    }
    proof {
        assert(plain_split_spec(text@).subrange(0, words@.len() as int) =~= plain_split_spec(
            text@,
        ));
    }
    if !current.as_str().is_empty() {
        let ghost old_lines = lines.deep_view();
        let ghost w = current@;
        lines.push(current);
        proof {
            assert(lines.deep_view() =~= old_lines.push(w));
        }
    }
    if lines.len() == 0 {
        lines.push(String::new());
        proof {
            assert(lines.deep_view() =~= seq![Seq::<char>::empty()]);
        }
    }
    lines
}

/// State of the greedy word packer: finished lines, the unprefixed current
/// line, its accumulated visible length, and whether the first-line prefix
/// is still in use.
pub ghost struct WrapState {
    pub lines: Seq<Seq<char>>,
    pub cur: Seq<char>,
    pub cur_len: nat,
    pub first: bool,
}

pub open spec fn wrap_init() -> WrapState {
    WrapState { lines: seq![], cur: seq![], cur_len: 0, first: true }
}

/// Greedy packing of one word: the word joins the current line when it
/// fits in the width left after the line's prefix, and otherwise the
/// current line is finalized with its prefix and the word opens a new line.
pub open spec fn wrap_step(
    st: WrapState,
    w: Seq<char>,
    width: nat,
    fp: Seq<char>,
    np: Seq<char>,
) -> WrapState {
    let prefix_len = if st.first {
        visible_width(fp)
    } else {
        visible_width(np)
    };
    let available: nat = if width >= prefix_len {
        (width - prefix_len) as nat
    } else {
        0
    };
    let space: nat = if st.cur.len() == 0 {
        0
    } else {
        1
    };
    let wlen = visible_width(w);
    if st.cur_len + wlen + space <= available {
        if st.cur.len() == 0 {
            WrapState { lines: st.lines, cur: w, cur_len: st.cur_len + wlen, first: st.first }
        } else {
            WrapState {
                lines: st.lines,
                cur: st.cur + seq![' '] + w,
                cur_len: st.cur_len + 1 + wlen,
                first: st.first,
            }
        }
    } else {
        if st.cur.len() > 0 {
            let pfx = if st.first {
                fp
            } else {
                np
            };
            WrapState { lines: st.lines.push(pfx + st.cur), cur: w, cur_len: wlen, first: false }
        } else {
            WrapState { lines: st.lines, cur: w, cur_len: wlen, first: st.first }
        }
    }
}

pub open spec fn wrap_run(
    st: WrapState,
    words: Seq<Seq<char>>,
    width: nat,
    fp: Seq<char>,
    np: Seq<char>,
) -> WrapState {
    words.fold_left(st, |st: WrapState, w: Seq<char>| wrap_step(st, w, width, fp, np))
}

/// Flush the packer: a nonempty current line is finalized with the prefix
/// of its position.
pub open spec fn wrap_finish(st: WrapState, fp: Seq<char>, np: Seq<char>) -> Seq<Seq<char>> {
    if st.cur.len() > 0 {
        let pfx = if st.first {
            fp
        } else {
            np
        };
        st.lines.push(pfx + st.cur)
    } else {
        st.lines
    }
}

/// The lines produced by greedily wrapping the words of `text` to `width`,
/// the first line carrying `fp` and every later line carrying `np`.
/// Zero width, or text without words, yields no lines at all.
pub open spec fn wrap_spec(text: Seq<char>, width: nat, fp: Seq<char>, np: Seq<char>) -> Seq<
    Seq<char>,
> {
    if width == 0 {
        seq![]
    } else {
        wrap_finish(wrap_run(wrap_init(), split_spec(text), width, fp, np), fp, np)
    }
}

pub proof fn lemma_wrap_run_push(
    st: WrapState,
    words: Seq<Seq<char>>,
    w: Seq<char>,
    width: nat,
    fp: Seq<char>,
    np: Seq<char>,
)
    ensures
        wrap_run(st, words.push(w), width, fp, np) == wrap_step(
            wrap_run(st, words, width, fp, np),
            w,
            width,
            fp,
            np,
        ),
{
    reveal_with_fuel(Seq::fold_left, 2);
    assert(words.push(w).drop_last() =~= words);
    assert(words.push(w).last() == w);
}

/// Every word the splitter produces is at most as long as its input, and
/// so are the splitter's internal buffers.
pub proof fn lemma_split_run_bound(st: SplitState, s: Seq<char>, n: nat)
    requires
        st.cur.len() + st.esc.len() <= n,
        forall|k: int|
            0 <= k < st.words.len() ==> (#[trigger] st.words[k]).len() <= n,
    ensures
        split_run(st, s).cur.len() + split_run(st, s).esc.len() <= n + s.len(),
        forall|k: int|
            0 <= k < split_run(st, s).words.len() ==> (#[trigger] split_run(st, s).words[k]).len()
                <= n + s.len(),
    decreases s.len(),
{
    if s.len() == 0 {
        assert(split_run(st, s) == st);
    } else {
        let prefix = s.drop_last();
        let c = s.last();
        assert(s =~= prefix.push(c));
        lemma_split_run_push(st, prefix, c);
        lemma_split_run_bound(st, prefix, n);
    }
}

/// Every word of `split_spec(s)` is at most as long as `s`.
pub proof fn lemma_split_words_bound(s: Seq<char>)
    ensures
        forall|k: int|
            0 <= k < split_spec(s).len() ==> (#[trigger] split_spec(s)[k]).len() <= s.len(),
{
    lemma_split_run_bound(split_init(), s, 0);
}

/// Wrap text to fit within a given width, ANSI-aware. The result is exact
/// whenever the text and both prefixes are within machine limits; on
/// astronomically long inputs the result is empty instead.
pub fn text_wrap(text: &str, width: usize, first_prefix: &str, next_prefix: &str) -> (r:
    WrappedText)
    ensures
        wrap_within_limits(text@, first_prefix@, next_prefix@) ==> r.lines.deep_view()
            == wrap_spec(text@, width as nat, first_prefix@, next_prefix@),
        !wrap_within_limits(text@, first_prefix@, next_prefix@) ==> r.lines@.len() == 0,
{
    let lim = usize::MAX / 3;
    if text.unicode_len() > lim || first_prefix.unicode_len() > lim || next_prefix.unicode_len()
        > lim {
        return WrappedText::empty();
    }
    if width == 0 {
        return WrappedText::empty();
    }
    let words = split_text(text);
    proof {
        lemma_split_words_bound(text@);
        lemma_vis_bound(first_prefix@, false);
        lemma_vis_bound(next_prefix@, false);
    }
    let first_prefix_len = visible_length(first_prefix);
    let next_prefix_len = visible_length(next_prefix);

    let ghost gw = width as nat;
    let ghost gfp = first_prefix@;
    let ghost gnp = next_prefix@;
    let mut lines: Vec<String> = Vec::new();
    let mut current_line = String::new();
    let mut current_len: usize = 0;
    let mut is_first_line = true;
    let mut j: usize = 0;
    while j < words.len()
        invariant
            j <= words.len(),
            words.deep_view() == split_spec(text@),
            text@.len() <= usize::MAX / 3,
            gfp.len() <= usize::MAX / 3,
            gnp.len() <= usize::MAX / 3,
            gfp == first_prefix@,
            gnp == next_prefix@,
            gw == width as nat,
            width > 0,
            first_prefix_len as nat == visible_width(gfp),
            next_prefix_len as nat == visible_width(gnp),
            ({
                let st = wrap_run(wrap_init(), split_spec(text@).subrange(0, j as int), gw, gfp, gnp);
                &&& lines.deep_view() == st.lines
                &&& current_line@ == st.cur
                &&& current_len as nat == st.cur_len
                &&& is_first_line == st.first
            }),
        decreases words.len() - j,
    {
        let ghost ws = split_spec(text@);
        let ghost pre = ws.subrange(0, j as int);
        let ghost st = wrap_run(wrap_init(), pre, gw, gfp, gnp);
        proof {
            assert(ws.subrange(0, j as int + 1) =~= pre.push(ws[j as int]));
            lemma_wrap_run_push(wrap_init(), pre, ws[j as int], gw, gfp, gnp);
            lemma_split_words_bound(text@);
            lemma_vis_bound(ws[j as int], false);
        }
        let word = &words[j];
        let word_len = visible_length(word.as_str());
        let prefix_len = if is_first_line {
            first_prefix_len
        } else {
            next_prefix_len
        };
        let available = if width >= prefix_len {
            width - prefix_len
        } else {
            0
        };
        let space_needed: usize = if current_line.as_str().is_empty() {
            0
        } else {
            1
        };
        let fits = match current_len.checked_add(word_len) {
            Some(a) => match a.checked_add(space_needed) {
                Some(b) => b <= available,
                None => false,
            },
            None => false,
        };
        if fits {
            if !current_line.as_str().is_empty() {
                push_char(&mut current_line, ' ');
                current_len = current_len + 1;
            }
            current_line.append(word.as_str());
            current_len = current_len + word_len;
            proof {
                if st.cur.len() > 0 {
                    assert(current_line@ =~= st.cur + seq![' '] + ws[j as int]);
                }
            }
        } else {
            if !current_line.as_str().is_empty() {
                let prefix = if is_first_line {
                    first_prefix
                } else {
                    next_prefix
                };
                let mut line = String::from_str(prefix);
                line.append(current_line.as_str());
                let ghost old_lines = lines.deep_view();
                let ghost lv = line@;
                lines.push(line);
                is_first_line = false;
                proof {
                    assert(lines.deep_view() =~= old_lines.push(lv));
                }
            }
            current_line = String::from_str(word.as_str());
            current_len = word_len;
        }
        j = j + 1;
    }
    proof {
        assert(split_spec(text@).subrange(0, words@.len() as int) =~= split_spec(text@));
    }
    if !current_line.as_str().is_empty() {
        let prefix = if is_first_line {
            first_prefix
        } else {
            next_prefix
        };
        let mut line = String::from_str(prefix);
        line.append(current_line.as_str());
        let ghost old_lines = lines.deep_view();
        let ghost lv = line@;
        lines.push(line);
        proof {
            assert(lines.deep_view() =~= old_lines.push(lv));
        }
    }
    WrappedText { lines }
}

/// The machine limits under which `text_wrap` is exact: the text and both
/// prefixes leave all width arithmetic within a machine word.
pub open spec fn wrap_within_limits(text: Seq<char>, fp: Seq<char>, np: Seq<char>) -> bool {
    &&& text.len() <= usize::MAX / 3
    &&& fp.len() <= usize::MAX / 3
    &&& np.len() <= usize::MAX / 3
}

/// Whether the splitter, run over `s`, ends with no unfinished escape
/// sequence: every escape that was opened found its terminator.
pub open spec fn escapes_finished(s: Seq<char>) -> bool {
    split_run(split_init(), s).esc.len() == 0
}

/// A sequence ending in `m` always leaves the width machine outside any
/// escape: a pending escape is closed by it and an idle machine ignores it.
proof fn lemma_ends_in_m_closed(s: Seq<char>, st: bool)
    requires
        s.len() > 0,
        s.last() == 'm',
    ensures
        esc_state_from(s, st) == false,
    decreases s.len(),
{
    if s.len() == 1 {
        lemma_vis_single('m', st);
        assert(s =~= seq!['m']);
    } else {
        lemma_ends_in_m_closed(s.drop_first(), esc_step(st, s[0]));
    }
}

/// The invariant the splitter maintains: every produced word, and the word
/// being built, leaves the width machine outside any escape.
pub open spec fn split_state_closed(st: SplitState) -> bool {
    &&& forall|k: int|
        0 <= k < st.words.len() ==> esc_state_from(#[trigger] st.words[k], false) == false
    &&& esc_state_from(st.cur, false) == false
    &&& (st.in_esc ==> st.esc.len() >= 1)
    &&& (!st.in_esc ==> st.esc.len() == 0)
}

proof fn lemma_split_step_closed(st: SplitState, c: char)
    requires
        split_state_closed(st),
    ensures
        split_state_closed(split_step(st, c)),
{
    let st2 = split_step(st, c);
    if st.in_esc {
        if c == 'm' {
            let blk = st.esc.push(c);
            lemma_ends_in_m_closed(blk, esc_state_from(st.cur, false));
            lemma_vis_decompose(st.cur, blk, false);
            assert(esc_state_from(st2.cur, false) == false);
        }
    } else if c == '\x1b' {
    } else if is_space_char(c) {
        if st.cur.len() > 0 {
            assert forall|k: int|
                0 <= k < st2.words.len() implies esc_state_from(
                #[trigger] st2.words[k],
                false,
            ) == false by {
                if k < st.words.len() {
                    assert(st2.words[k] == st.words[k]);
                } else {
                    assert(st2.words[k] == st.cur);
                }
            }
        }
    } else {
        lemma_vis_decompose(st.cur, seq![c], false);
        lemma_vis_single(c, esc_state_from(st.cur, false));
        assert(st.cur + seq![c] =~= st.cur.push(c));
        assert(esc_state_from(st.cur.push(c), false) == false);
    }
}

proof fn lemma_split_run_closed(st: SplitState, s: Seq<char>)
    requires
        split_state_closed(st),
    ensures
        split_state_closed(split_run(st, s)),
    decreases s.len(),
{
    if s.len() > 0 {
        let prefix = s.drop_last();
        assert(s =~= prefix.push(s.last()));
        lemma_split_run_push(st, prefix, s.last());
        lemma_split_run_closed(st, prefix);
        lemma_split_step_closed(split_run(st, prefix), s.last());
    } else {
        assert(split_run(st, s) == st);
    }
}

/// Every word of a text without an unfinished escape leaves the width
/// machine outside any escape; widths of joined words therefore add up.
pub proof fn lemma_split_words_closed(s: Seq<char>)
    requires
        escapes_finished(s),
    ensures
        forall|k: int|
            0 <= k < split_spec(s).len() ==> esc_state_from(
                #[trigger] split_spec(s)[k],
                false,
            ) == false,
{
    lemma_split_run_closed(split_init(), s);
    let st = split_run(split_init(), s);
    assert(st.cur + st.esc =~= st.cur);
    assert forall|k: int|
        0 <= k < split_spec(s).len() implies esc_state_from(
        #[trigger] split_spec(s)[k],
        false,
    ) == false by {
        if k < st.words.len() {
            assert(split_spec(s)[k] == st.words[k]);
        } else {
            assert(split_spec(s)[k] == st.cur + st.esc);
        }
    }
}

/// A line of the wrap result that obeys the width law: its visible width
/// fits, or it is one overlong word behind its prefix.
pub open spec fn wrap_line_ok(
    l: Seq<char>,
    width: nat,
    fp: Seq<char>,
    np: Seq<char>,
    words: Seq<Seq<char>>,
) -> bool {
    ||| visible_width(l) <= width
    ||| exists|k: int|
        0 <= k < words.len() && (l == fp + #[trigger] words[k] || l == np + words[k])
}

/// The packer invariant for the width law.
spec fn wrap_bound_inv(
    st: WrapState,
    width: nat,
    fp: Seq<char>,
    np: Seq<char>,
    words: Seq<Seq<char>>,
) -> bool {
    &&& st.cur_len == visible_width(st.cur)
    &&& esc_state_from(st.cur, false) == false
    &&& (st.cur.len() > 0 ==> ((exists|k: int| 0 <= k < words.len() && st.cur == #[trigger] words[k])
        || {
        let plen = if st.first {
            visible_width(fp)
        } else {
            visible_width(np)
        };
        width >= plen && st.cur_len <= width - plen
    }))
    &&& (forall|i: int|
        0 <= i < st.lines.len() ==> wrap_line_ok(#[trigger] st.lines[i], width, fp, np, words))
}

proof fn lemma_wrap_step_bound(
    st: WrapState,
    w: Seq<char>,
    width: nat,
    fp: Seq<char>,
    np: Seq<char>,
    words: Seq<Seq<char>>,
    wk: int,
)
    requires
        wrap_bound_inv(st, width, fp, np, words),
        esc_state_from(fp, false) == false,
        esc_state_from(np, false) == false,
        0 <= wk < words.len(),
        words[wk] == w,
        esc_state_from(w, false) == false,
    ensures
        wrap_bound_inv(wrap_step(st, w, width, fp, np), width, fp, np, words),
{
    let st2 = wrap_step(st, w, width, fp, np);
    let plen = if st.first {
        visible_width(fp)
    } else {
        visible_width(np)
    };
    let available: nat = if width >= plen {
        (width - plen) as nat
    } else {
        0
    };
    let space: nat = if st.cur.len() == 0 {
        0
    } else {
        1
    };
    let wlen = visible_width(w);
    if st.cur_len + wlen + space <= available {
        if st.cur.len() == 0 {
            assert(st.cur_len == 0);
        } else {
            lemma_vis_decompose(st.cur + seq![' '], w, false);
            lemma_vis_decompose(st.cur, seq![' '], false);
            lemma_vis_single(' ', false);
            assert(char_width(' ') == 1);
            assert(visible_width(st.cur + seq![' '] + w) == st.cur_len + 1 + wlen);
        }
    } else {
        if st.cur.len() > 0 {
            let pfx = if st.first {
                fp
            } else {
                np
            };
            let l = pfx + st.cur;
            lemma_vis_decompose(pfx, st.cur, false);
            assert(visible_width(l) == plen + st.cur_len);
            if exists|k: int| 0 <= k < words.len() && st.cur == #[trigger] words[k] {
                let k = choose|k: int| 0 <= k < words.len() && st.cur == #[trigger] words[k];
                assert(wrap_line_ok(l, width, fp, np, words));
            } else {
                assert(width >= plen && st.cur_len <= width - plen);
                assert(visible_width(l) <= width);
            }
            assert forall|i: int|
                0 <= i < st2.lines.len() implies wrap_line_ok(
                #[trigger] st2.lines[i],
                width,
                fp,
                np,
                words,
            ) by {
                if i < st.lines.len() {
                    assert(st2.lines[i] == st.lines[i]);
                } else {
                    assert(st2.lines[i] == l);
                }
            }
        }
    }
}

proof fn lemma_wrap_run_bound(
    width: nat,
    fp: Seq<char>,
    np: Seq<char>,
    words: Seq<Seq<char>>,
    j: int,
)
    requires
        esc_state_from(fp, false) == false,
        esc_state_from(np, false) == false,
        forall|k: int|
            0 <= k < words.len() ==> esc_state_from(#[trigger] words[k], false) == false,
        0 <= j <= words.len(),
    ensures
        wrap_bound_inv(
            wrap_run(wrap_init(), words.subrange(0, j), width, fp, np),
            width,
            fp,
            np,
            words,
        ),
    decreases j,
{
    if j == 0 {
        assert(words.subrange(0, 0) =~= Seq::<Seq<char>>::empty());
        assert(wrap_run(wrap_init(), words.subrange(0, 0), width, fp, np) == wrap_init());
    } else {
        lemma_wrap_run_bound(width, fp, np, words, j - 1);
        let pre = words.subrange(0, j - 1);
        assert(words.subrange(0, j) =~= pre.push(words[j - 1]));
        lemma_wrap_run_push(wrap_init(), pre, words[j - 1], width, fp, np);
        lemma_wrap_step_bound(
            wrap_run(wrap_init(), pre, width, fp, np),
            words[j - 1],
            width,
            fp,
            np,
            words,
            j - 1,
        );
    }
}

/// The empty splitter state, before any input.
pub open spec fn split_zero() -> SplitState {
    SplitState { words: seq![], cur: seq![], esc: seq![], in_esc: false }
}

/// Running the splitter over a concatenation is running it over the parts
/// in turn.
pub proof fn lemma_split_run_app(st: SplitState, a: Seq<char>, b: Seq<char>)
    ensures
        split_run(st, a + b) == split_run(split_run(st, a), b),
{
    let f = |st: SplitState, c: char| split_step(st, c);
    (a + b).lemma_fold_left_split(st, f, a.len() as int);
    assert((a + b).subrange(0, a.len() as int) =~= a);
    assert((a + b).subrange(a.len() as int, (a + b).len() as int) =~= b);
}

proof fn lemma_split_run_single(st: SplitState, c: char)
    ensures
        split_run(st, seq![c]) == split_step(st, c),
{
    reveal_with_fuel(Seq::fold_left, 2);
    assert(seq![c].drop_last() =~= Seq::<char>::empty());
    assert(seq![c].last() == c);
}

/// Words already produced ride along: running the splitter changes only
/// what comes after them.
proof fn lemma_split_run_frame(st: SplitState, s: Seq<char>, prefix: Seq<Seq<char>>)
    ensures
        split_run(
            SplitState { words: prefix + st.words, cur: st.cur, esc: st.esc, in_esc: st.in_esc },
            s,
        ) == (SplitState {
            words: prefix + split_run(st, s).words,
            cur: split_run(st, s).cur,
            esc: split_run(st, s).esc,
            in_esc: split_run(st, s).in_esc,
        }),
    decreases s.len(),
{
    if s.len() == 0 {
    } else {
        let p = s.drop_last();
        let c = s.last();
        assert(s =~= p.push(c));
        let stp = SplitState { words: prefix + st.words, cur: st.cur, esc: st.esc, in_esc: st.in_esc };
        lemma_split_run_push(stp, p, c);
        lemma_split_run_push(st, p, c);
        lemma_split_run_frame(st, p, prefix);
        let r = split_run(st, p);
        let rp = split_run(stp, p);
        assert(rp.words == prefix + r.words);
        if r.in_esc {
            if c == 'm' {
            } else {
            }
        } else if c == '\x1b' {
        } else if is_space_char(c) {
            if r.cur.len() > 0 {
                assert(split_step(rp, c).words =~= prefix + split_step(r, c).words);
            }
        } else {
        }
    }
}

/// A clean word: running the splitter over it from a fresh state builds
/// exactly the word, with no word emitted and no escape pending.
pub open spec fn clean_word(w: Seq<char>) -> bool {
    split_run(split_zero(), w) == SplitState {
        words: seq![],
        cur: w,
        esc: seq![],
        in_esc: false,
    }
}

/// The splitter state shape on which cleanliness of its output rests.
spec fn split_clean_inv(st: SplitState) -> bool {
    &&& forall|k: int|
        0 <= k < st.words.len() ==> clean_word(#[trigger] st.words[k]) && st.words[k].len() > 0
    &&& clean_word(st.cur)
    &&& (st.in_esc ==> st.esc.len() >= 1 && st.esc[0] == '\x1b' && (forall|i: int|
        1 <= i < st.esc.len() ==> st.esc[i] != 'm'))
    &&& (!st.in_esc ==> st.esc.len() == 0)
}

/// Characters read inside an escape, none of them the terminator, only
/// grow the escape buffer.
proof fn lemma_split_esc_body(st: SplitState, body: Seq<char>)
    requires
        st.in_esc,
        forall|i: int| 0 <= i < body.len() ==> body[i] != 'm',
    ensures
        split_run(st, body) == (SplitState {
            words: st.words,
            cur: st.cur,
            esc: st.esc + body,
            in_esc: true,
        }),
    decreases body.len(),
{
    if body.len() == 0 {
        assert(st.esc + body =~= st.esc);
    } else {
        let p = body.drop_last();
        let c = body.last();
        assert(body =~= p.push(c));
        lemma_split_run_push(st, p, c);
        lemma_split_esc_body(st, p);
        assert(c != 'm');
        assert((st.esc + p).push(c) =~= st.esc + body);
    }
}

proof fn lemma_split_step_clean(st: SplitState, c: char)
    requires
        split_clean_inv(st),
    ensures
        split_clean_inv(split_step(st, c)),
{
    let st2 = split_step(st, c);
    if st.in_esc {
        if c == 'm' {
            // the finished escape block joins the current word cleanly
            let blk = st.esc.push(c);
            let w2 = st.cur + blk;
            lemma_split_run_app(split_zero(), st.cur, blk);
            let mid = split_run(split_zero(), st.cur);
            assert(mid == SplitState { words: seq![], cur: st.cur, esc: seq![], in_esc: false });
            // the block: escape char, body, terminator
            let body = st.esc.drop_first();
            assert(blk =~= seq!['\x1b'] + body.push('m'));
            lemma_split_run_app(mid, seq!['\x1b'], body.push('m'));
            lemma_split_run_single(mid, '\x1b');
            let mid2 = split_step(mid, '\x1b');
            assert(mid2 == SplitState {
                words: seq![],
                cur: st.cur,
                esc: seq!['\x1b'],
                in_esc: true,
            });
            assert(body.push('m').drop_last() =~= body);
            lemma_split_run_push(mid2, body, 'm');
            lemma_split_esc_body(mid2, body);
            let mid3 = split_run(mid2, body);
            assert(mid3.esc =~= seq!['\x1b'] + body);
            assert(mid3.esc =~= st.esc);
            assert(split_step(mid3, 'm').cur =~= st.cur + st.esc.push('m'));
            assert(split_run(split_zero(), w2) == SplitState {
                words: seq![],
                cur: w2,
                esc: seq![],
                in_esc: false,
            }) by {
                assert(split_run(split_zero(), w2) == split_run(mid, blk));
                assert(split_run(mid, blk) == split_run(mid2, body.push('m')));
                assert(split_run(mid2, body.push('m')) == split_step(mid3, 'm'));
            }
        }
    } else if c == '\x1b' {
    } else if is_space_char(c) {
        if st.cur.len() > 0 {
            assert forall|k: int|
                0 <= k < st2.words.len() implies clean_word(#[trigger] st2.words[k])
                && st2.words[k].len() > 0 by {
                if k < st.words.len() {
                    assert(st2.words[k] == st.words[k]);
                } else {
                    assert(st2.words[k] == st.cur);
                }
            }
        }
    } else {
        // a plain character extends the current word cleanly
        let w2 = st.cur.push(c);
        lemma_split_run_app(split_zero(), st.cur, seq![c]);
        assert(st.cur + seq![c] =~= w2);
        lemma_split_run_single(
            SplitState { words: seq![], cur: st.cur, esc: seq![], in_esc: false },
            c,
        );
    }
}

proof fn lemma_split_run_clean(st: SplitState, s: Seq<char>)
    requires
        split_clean_inv(st),
    ensures
        split_clean_inv(split_run(st, s)),
    decreases s.len(),
{
    if s.len() > 0 {
        let p = s.drop_last();
        assert(s =~= p.push(s.last()));
        lemma_split_run_push(st, p, s.last());
        lemma_split_run_clean(st, p);
        lemma_split_step_clean(split_run(st, p), s.last());
    } else {
        assert(split_run(st, s) == st);
    }
}

/// Every word of a text whose escapes all finish is clean and nonempty.
pub proof fn lemma_split_words_clean(s: Seq<char>)
    requires
        escapes_finished(s),
    ensures
        forall|k: int|
            0 <= k < split_spec(s).len() ==> clean_word(#[trigger] split_spec(s)[k])
                && split_spec(s)[k].len() > 0,
{
    assert(split_clean_inv(split_init())) by {
        assert(split_run(split_zero(), Seq::<char>::empty()) == split_zero());
    }
    lemma_split_run_clean(split_init(), s);
    let st = split_run(split_init(), s);
    assert(st.cur + st.esc =~= st.cur);
    assert forall|k: int|
        0 <= k < split_spec(s).len() implies clean_word(#[trigger] split_spec(s)[k])
        && split_spec(s)[k].len() > 0 by {
        if k < st.words.len() {
            assert(split_spec(s)[k] == st.words[k]);
        } else {
            assert(split_spec(s)[k] == st.cur + st.esc);
        }
    }
}

/// `pieces` joined with single spaces.
pub open spec fn join_spaces(pieces: Seq<Seq<char>>) -> Seq<char>
    decreases pieces.len(),
{
    if pieces.len() == 0 {
        Seq::empty()
    } else if pieces.len() == 1 {
        pieces[0]
    } else {
        join_spaces(pieces.drop_last()) + seq![' '] + pieces.last()
    }
}

proof fn lemma_join_spaces_push(pieces: Seq<Seq<char>>, l: Seq<char>)
    ensures
        pieces.len() == 0 ==> join_spaces(pieces.push(l)) == l,
        pieces.len() > 0 ==> join_spaces(pieces.push(l)) == join_spaces(pieces) + seq![' '] + l,
{
    assert(pieces.push(l).drop_last() =~= pieces);
    if pieces.len() == 0 {
        assert(pieces.push(l)[0] == l);
    }
}

/// Splitting `s` from a fresh state produces exactly the words `ws`, the
/// last one still in the current-word buffer.
pub open spec fn split_yields(s: Seq<char>, ws: Seq<Seq<char>>) -> bool {
    &&& ws.len() > 0
    &&& (forall|k: int| 0 <= k < ws.len() ==> (#[trigger] ws[k]).len() > 0)
    &&& split_run(split_zero(), s) == (SplitState {
        words: ws.drop_last(),
        cur: ws.last(),
        esc: seq![],
        in_esc: false,
    })
}

proof fn lemma_yields_single(w: Seq<char>)
    requires
        clean_word(w),
        w.len() > 0,
    ensures
        split_yields(w, seq![w]),
{
    assert(seq![w].drop_last() =~= Seq::<Seq<char>>::empty());
    assert(seq![w].last() == w);
}

proof fn lemma_yields_concat(a: Seq<char>, b: Seq<char>, wsa: Seq<Seq<char>>, wsb: Seq<Seq<char>>)
    requires
        split_yields(a, wsa),
        split_yields(b, wsb),
    ensures
        split_yields(a + seq![' '] + b, wsa + wsb),
{
    let sa = split_run(split_zero(), a);
    lemma_split_run_app(split_zero(), a + seq![' '], b);
    lemma_split_run_app(split_zero(), a, seq![' ']);
    lemma_split_run_single(sa, ' ');
    assert(is_space_char(' '));
    let flushed = split_step(sa, ' ');
    assert(flushed == SplitState {
        words: wsa.drop_last().push(wsa.last()),
        cur: seq![],
        esc: seq![],
        in_esc: false,
    });
    assert(wsa.drop_last().push(wsa.last()) =~= wsa);
    lemma_split_run_frame(split_zero(), b, wsa);
    assert(split_run(flushed, b) == SplitState {
        words: wsa + wsb.drop_last(),
        cur: wsb.last(),
        esc: seq![],
        in_esc: false,
    });
    assert(wsa + wsb.drop_last() =~= (wsa + wsb).drop_last());
    assert((wsa + wsb).last() == wsb.last());
    assert forall|k: int| 0 <= k < (wsa + wsb).len() implies ((wsa + wsb)[k]).len() > 0 by {
        if k < wsa.len() {
            assert((wsa + wsb)[k] == wsa[k]);
        } else {
            assert((wsa + wsb)[k] == wsb[k - wsa.len()]);
        }
    }
}

/// An all-whitespace run is invisible to a fresh splitter.
proof fn lemma_split_ws_transparent(p: Seq<char>)
    requires
        forall|i: int| 0 <= i < p.len() ==> is_space_char(#[trigger] p[i]),
    ensures
        split_run(split_zero(), p) == split_zero(),
    decreases p.len(),
{
    if p.len() > 0 {
        let q = p.drop_last();
        assert(p =~= q.push(p.last()));
        lemma_split_run_push(split_zero(), q, p.last());
        lemma_split_ws_transparent(q);
    }
}

proof fn lemma_yields_ws_prefix(p: Seq<char>, s: Seq<char>, ws: Seq<Seq<char>>)
    requires
        forall|i: int| 0 <= i < p.len() ==> is_space_char(#[trigger] p[i]),
        split_yields(s, ws),
    ensures
        split_yields(p + s, ws),
{
    lemma_split_run_app(split_zero(), p, s);
    lemma_split_ws_transparent(p);
}

/// The packer invariant for idempotence: the current line covers the most
/// recent words, and the joined finished lines split back into the words
/// before them.
spec fn wrap_yield_inv(
    st: WrapState,
    words: Seq<Seq<char>>,
    j: int,
    fp: Seq<char>,
    np: Seq<char>,
) -> bool {
    if j == 0 {
        st.lines.len() == 0 && st.cur.len() == 0
    } else {
        exists|jj: int|
            #![trigger words.subrange(jj, j)]
            {
                &&& 0 <= jj < j
                &&& split_yields(st.cur, words.subrange(jj, j))
                &&& (jj == 0 ==> st.lines.len() == 0)
                &&& (jj > 0 ==> st.lines.len() > 0 && split_yields(
                    join_spaces(st.lines),
                    words.subrange(0, jj),
                ))
            }
    }
}

proof fn lemma_wrap_step_yield(
    st: WrapState,
    words: Seq<Seq<char>>,
    j: int,
    width: nat,
    fp: Seq<char>,
    np: Seq<char>,
)
    requires
        0 <= j < words.len(),
        wrap_yield_inv(st, words, j, fp, np),
        forall|k: int|
            0 <= k < words.len() ==> clean_word(#[trigger] words[k]) && words[k].len() > 0,
        forall|i: int| 0 <= i < fp.len() ==> is_space_char(#[trigger] fp[i]),
        forall|i: int| 0 <= i < np.len() ==> is_space_char(#[trigger] np[i]),
    ensures
        wrap_yield_inv(wrap_step(st, words[j], width, fp, np), words, j + 1, fp, np),
{
    let w = words[j];
    let st2 = wrap_step(st, w, width, fp, np);
    let plen = if st.first {
        visible_width(fp)
    } else {
        visible_width(np)
    };
    let available: nat = if width >= plen {
        (width - plen) as nat
    } else {
        0
    };
    let space: nat = if st.cur.len() == 0 {
        0
    } else {
        1
    };
    let wlen = visible_width(w);
    lemma_yields_single(w);
    if st.cur_len + wlen + space <= available {
        if st.cur.len() == 0 {
            assert(j == 0) by {
                if j > 0 {
                    let jj = choose|jj: int|
                        #![trigger words.subrange(jj, j)]
                        0 <= jj < j && split_yields(st.cur, words.subrange(jj, j)) && (jj == 0
                            ==> st.lines.len() == 0) && (jj > 0 ==> st.lines.len() > 0
                            && split_yields(join_spaces(st.lines), words.subrange(0, jj)));
                    assert(words.subrange(jj, j).len() > 0);
                    assert(split_run(split_zero(), st.cur) == split_zero());
                }
            }
            assert(words.subrange(0, 1) =~= seq![w]);
            assert(wrap_yield_inv(st2, words, 1, fp, np)) by {
                assert(split_yields(st2.cur, words.subrange(0, 1)));
                assert(st2.lines.len() == 0);
            }
        } else {
            assert(j > 0);
            let jj = choose|jj: int|
                #![trigger words.subrange(jj, j)]
                0 <= jj < j && split_yields(st.cur, words.subrange(jj, j)) && (jj == 0
                    ==> st.lines.len() == 0) && (jj > 0 ==> st.lines.len() > 0 && split_yields(
                    join_spaces(st.lines),
                    words.subrange(0, jj),
                ));
            lemma_yields_concat(st.cur, w, words.subrange(jj, j), seq![w]);
            assert(words.subrange(jj, j) + seq![w] =~= words.subrange(jj, j + 1));
            assert(split_yields(st2.cur, words.subrange(jj, j + 1)));
            assert(wrap_yield_inv(st2, words, j + 1, fp, np));
        }
    } else {
        if st.cur.len() > 0 {
            assert(j > 0);
            let jj = choose|jj: int|
                #![trigger words.subrange(jj, j)]
                0 <= jj < j && split_yields(st.cur, words.subrange(jj, j)) && (jj == 0
                    ==> st.lines.len() == 0) && (jj > 0 ==> st.lines.len() > 0 && split_yields(
                    join_spaces(st.lines),
                    words.subrange(0, jj),
                ));
            let pfx = if st.first {
                fp
            } else {
                np
            };
            let line = pfx + st.cur;
            lemma_yields_ws_prefix(pfx, st.cur, words.subrange(jj, j));
            assert(split_yields(line, words.subrange(jj, j)));
            lemma_join_spaces_push(st.lines, line);
            if jj == 0 {
                assert(join_spaces(st2.lines) == line);
                assert(split_yields(join_spaces(st2.lines), words.subrange(0, j)));
            } else {
                lemma_yields_concat(
                    join_spaces(st.lines),
                    line,
                    words.subrange(0, jj),
                    words.subrange(jj, j),
                );
                assert(words.subrange(0, jj) + words.subrange(jj, j) =~= words.subrange(0, j));
                assert(split_yields(join_spaces(st2.lines), words.subrange(0, j)));
            }
            assert(words.subrange(j, j + 1) =~= seq![w]);
            assert(split_yields(st2.cur, words.subrange(j, j + 1)));
            assert(st2.lines.len() > 0);
            assert(wrap_yield_inv(st2, words, j + 1, fp, np));
        } else {
            assert(j == 0) by {
                if j > 0 {
                    let jj = choose|jj: int|
                        #![trigger words.subrange(jj, j)]
                        0 <= jj < j && split_yields(st.cur, words.subrange(jj, j)) && (jj == 0
                            ==> st.lines.len() == 0) && (jj > 0 ==> st.lines.len() > 0
                            && split_yields(join_spaces(st.lines), words.subrange(0, jj)));
                    assert(words.subrange(jj, j).len() > 0);
                }
            }
            assert(words.subrange(0, 1) =~= seq![w]);
            assert(wrap_yield_inv(st2, words, 1, fp, np));
        }
    }
}

proof fn lemma_wrap_run_yield(
    words: Seq<Seq<char>>,
    j: int,
    width: nat,
    fp: Seq<char>,
    np: Seq<char>,
)
    requires
        0 <= j <= words.len(),
        forall|k: int|
            0 <= k < words.len() ==> clean_word(#[trigger] words[k]) && words[k].len() > 0,
        forall|i: int| 0 <= i < fp.len() ==> is_space_char(#[trigger] fp[i]),
        forall|i: int| 0 <= i < np.len() ==> is_space_char(#[trigger] np[i]),
    ensures
        wrap_yield_inv(
            wrap_run(wrap_init(), words.subrange(0, j), width, fp, np),
            words,
            j,
            fp,
            np,
        ),
    decreases j,
{
    if j == 0 {
        assert(words.subrange(0, 0) =~= Seq::<Seq<char>>::empty());
        assert(wrap_run(wrap_init(), words.subrange(0, 0), width, fp, np) == wrap_init());
    } else {
        lemma_wrap_run_yield(words, j - 1, width, fp, np);
        let pre = words.subrange(0, j - 1);
        assert(words.subrange(0, j) =~= pre.push(words[j - 1]));
        lemma_wrap_run_push(wrap_init(), pre, words[j - 1], width, fp, np);
        lemma_wrap_step_yield(
            wrap_run(wrap_init(), pre, width, fp, np),
            words,
            j - 1,
            width,
            fp,
            np,
        );
    }
}

/// Joining a wrap's lines with single spaces and splitting again gives
/// back exactly the words of the original text.
pub proof fn lemma_split_of_wrap(text: Seq<char>, width: nat, fp: Seq<char>, np: Seq<char>)
    requires
        width > 0,
        escapes_finished(text),
        forall|i: int| 0 <= i < fp.len() ==> is_space_char(#[trigger] fp[i]),
        forall|i: int| 0 <= i < np.len() ==> is_space_char(#[trigger] np[i]),
    ensures
        split_spec(join_spaces(wrap_spec(text, width, fp, np))) == split_spec(text),
{
    let words = split_spec(text);
    lemma_split_words_clean(text);
    lemma_wrap_run_yield(words, words.len() as int, width, fp, np);
    assert(words.subrange(0, words.len() as int) =~= words);
    let st = wrap_run(wrap_init(), words, width, fp, np);
    let lines = wrap_finish(st, fp, np);
    if words.len() == 0 {
        assert(st.lines.len() == 0 && st.cur.len() == 0);
        assert(lines.len() == 0);
        assert(join_spaces(lines) =~= Seq::<char>::empty());
        assert(split_run(split_init(), Seq::<char>::empty()) == split_init());
        assert(split_spec(join_spaces(lines)) =~= words);
    } else {
        let j = words.len() as int;
        let jj = choose|jj: int|
            #![trigger words.subrange(jj, j)]
            0 <= jj < j && split_yields(st.cur, words.subrange(jj, j)) && (jj == 0
                ==> st.lines.len() == 0) && (jj > 0 ==> st.lines.len() > 0 && split_yields(
                join_spaces(st.lines),
                words.subrange(0, jj),
            ));
        assert(st.cur.len() > 0) by {
            assert(words.subrange(jj, j).last().len() > 0);
        }
        let pfx = if st.first {
            fp
        } else {
            np
        };
        let line = pfx + st.cur;
        lemma_yields_ws_prefix(pfx, st.cur, words.subrange(jj, j));
        lemma_join_spaces_push(st.lines, line);
        let joined = join_spaces(lines);
        if jj == 0 {
            assert(joined == line);
            assert(split_yields(joined, words));
        } else {
            lemma_yields_concat(
                join_spaces(st.lines),
                line,
                words.subrange(0, jj),
                words.subrange(jj, j),
            );
            assert(words.subrange(0, jj) + words.subrange(jj, j) =~= words);
            assert(split_yields(joined, words));
        }
        let sr = split_run(split_init(), joined);
        assert(split_init() == split_zero());
        assert(sr.cur + sr.esc =~= words.last());
        assert(split_spec(joined) =~= words.drop_last().push(words.last()));
        assert(words.drop_last().push(words.last()) =~= words);
    }
}

/// Wrap idempotence: wrapping the concatenation, with single spaces, of
/// the lines a wrap produced, with the same width and the same
/// whitespace prefixes, reproduces exactly the same lines.
pub proof fn lemma_wrap_idempotent(text: Seq<char>, width: nat, fp: Seq<char>, np: Seq<char>)
    requires
        escapes_finished(text),
        forall|i: int| 0 <= i < fp.len() ==> is_space_char(#[trigger] fp[i]),
        forall|i: int| 0 <= i < np.len() ==> is_space_char(#[trigger] np[i]),
    ensures
        wrap_spec(join_spaces(wrap_spec(text, width, fp, np)), width, fp, np) == wrap_spec(
            text,
            width,
            fp,
            np,
        ),
{
    if width > 0 {
        lemma_split_of_wrap(text, width, fp, np);
    }
}

/// The wrap width law: every produced line's visible width, prefix
/// included, stays within the requested width, except a line that is one
/// overlong word behind its prefix. Holds of any text whose escape
/// sequences all finish, under prefixes whose own escapes are complete.
pub proof fn lemma_wrap_width_bound(text: Seq<char>, width: nat, fp: Seq<char>, np: Seq<char>)
    requires
        escapes_finished(text),
        esc_state_from(fp, false) == false,
        esc_state_from(np, false) == false,
    ensures
        forall|i: int|
            0 <= i < wrap_spec(text, width, fp, np).len() ==> wrap_line_ok(
                #[trigger] wrap_spec(text, width, fp, np)[i],
                width,
                fp,
                np,
                split_spec(text),
            ),
{
    if width == 0 {
    } else {
        let words = split_spec(text);
        lemma_split_words_closed(text);
        lemma_wrap_run_bound(width, fp, np, words, words.len() as int);
        assert(words.subrange(0, words.len() as int) =~= words);
        let st = wrap_run(wrap_init(), words, width, fp, np);
        let lines = wrap_finish(st, fp, np);
        if st.cur.len() > 0 {
            let plen = if st.first {
                visible_width(fp)
            } else {
                visible_width(np)
            };
            let pfx = if st.first {
                fp
            } else {
                np
            };
            let l = pfx + st.cur;
            lemma_vis_decompose(pfx, st.cur, false);
            if exists|k: int| 0 <= k < words.len() && st.cur == #[trigger] words[k] {
                let k = choose|k: int| 0 <= k < words.len() && st.cur == #[trigger] words[k];
                assert(wrap_line_ok(l, width, fp, np, words));
            } else {
                assert(visible_width(l) <= width);
            }
            assert forall|i: int|
                0 <= i < lines.len() implies wrap_line_ok(
                #[trigger] lines[i],
                width,
                fp,
                np,
                words,
            ) by {
                if i < st.lines.len() {
                    assert(lines[i] == st.lines[i]);
                } else {
                    assert(lines[i] == l);
                }
            }
        }
    }
}

} // verus!
