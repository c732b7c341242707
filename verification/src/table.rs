//! Table layout: column widths from buffered rows, proportional shrinking
//! with a floor, per-cell character wrapping, and box-drawing borders.

use vstd::prelude::*;
use vstd::arithmetic::div_mod::{lemma_div_by_multiple, lemma_div_is_ordered};
use vstd::arithmetic::mul::{lemma_mul_inequality, lemma_mul_is_commutative};
use crate::strutil::{push_char, repeat_char, char_seq, sat_add, spaces, space_string};
use crate::style::BlockStyler;
use crate::width::{char_width, display_width, visible_length, visible_width_sat};

verus! {

/// What streamdown_parser::format_line makes of one table cell, with link
/// and image processing on: the cell's inline markdown as styled text.
pub uninterp spec fn formatted_cell(s: Seq<char>) -> Seq<char>;

/// Relies on streamdown_parser::format_line, with both processing flags
/// set; the result is a function of the cell text alone.
#[verifier::external_body]
fn format_cell(s: &str) -> (r: String)
    ensures
        r@ == formatted_cell(s@),
{
    streamdown_parser::format_line(s, true, true)
}

/// State of the character wrapper for table cells: finished chunks, the
/// chunk being built, its visible width, the escape sequence being
/// buffered, and the most recent style-setting escape sequence.
pub ghost struct CellWrapState {
    pub lines: Seq<Seq<char>>,
    pub line: Seq<char>,
    pub w: nat,
    pub esc: Seq<char>,
    pub style: Option<Seq<char>>,
}

pub open spec fn cell_wrap_init() -> CellWrapState {
    CellWrapState { lines: seq![], line: seq![], w: 0, esc: seq![], style: None }
}

/// One character of the cell wrapper. Escape sequences pass through intact
/// and update the active style; a visible character that would overflow
/// the width closes the chunk with a full reset and reopens the active
/// style on the next chunk.
pub open spec fn cell_wrap_step(st: CellWrapState, c: char, width: nat) -> CellWrapState {
    if st.esc.len() > 0 || c == '\x1b' {
        let esc2 = st.esc.push(c);
        if c == 'm' {
            let style2: Option<Seq<char>> = if esc2 == "\x1b[0m"@ {
                None
            } else {
                Some(esc2)
            };
            CellWrapState {
                lines: st.lines,
                line: st.line + esc2,
                w: st.w,
                esc: seq![],
                style: style2,
            }
        } else {
            CellWrapState { lines: st.lines, line: st.line, w: st.w, esc: esc2, style: st.style }
        }
    } else {
        let cw = char_width(c);
        if st.w + cw > width && st.w > 0 {
            let closed = st.line + "\x1b[0m"@;
            let reopened: Seq<char> = match st.style {
                Some(sty) => sty,
                None => seq![],
            };
            CellWrapState {
                lines: st.lines.push(closed),
                line: reopened.push(c),
                w: cw,
                esc: st.esc,
                style: st.style,
            }
        } else {
            CellWrapState {
                lines: st.lines,
                line: st.line.push(c),
                w: st.w + cw,
                esc: st.esc,
                style: st.style,
            }
        }
    }
}

pub open spec fn cell_wrap_run(st: CellWrapState, s: Seq<char>, width: nat) -> CellWrapState {
    s.fold_left(st, |st: CellWrapState, c: char| cell_wrap_step(st, c, width))
}

/// The chunks of one cell wrapped to `width`: content that already fits
/// (or a zero width) passes through as a single chunk; otherwise the text
/// splits at character boundaries without breaking inside an escape
/// sequence, and a wrap that produced nothing yields one empty chunk.
pub open spec fn cell_wrap_spec(text: Seq<char>, width: nat) -> Seq<Seq<char>> {
    if width == 0 || visible_width_sat(text) <= width {
        seq![text]
    } else {
        let st = cell_wrap_run(cell_wrap_init(), text, width);
        let lines = if st.line.len() > 0 {
            st.lines.push(st.line)
        } else {
            st.lines
        };
        if lines.len() == 0 {
            seq![Seq::<char>::empty()]
        } else {
            lines
        }
    }
}

proof fn lemma_cell_wrap_run_push(st: CellWrapState, s: Seq<char>, c: char, width: nat)
    ensures
        cell_wrap_run(st, s.push(c), width) == cell_wrap_step(cell_wrap_run(st, s, width), c, width),
{
    reveal_with_fuel(Seq::fold_left, 2);
    assert(s.push(c).drop_last() =~= s);
    assert(s.push(c).last() == c);
}

/// Wrap text by characters, preserving ANSI codes across chunks.
pub fn wrap(text: &str, width: usize) -> (r: Vec<String>)
    ensures
        r.deep_view() == cell_wrap_spec(text@, width as nat),
{
    let vis = visible_length(text);
    if width == 0 || vis <= width {
        let mut r: Vec<String> = Vec::new();
        r.push(String::from_str(text));
        proof {
            assert(r.deep_view() =~= seq![text@]);
        }
        return r;
    }
    let reset_string = String::from_str("\x1b[0m");
    let n = text.unicode_len();
    let mut lines: Vec<String> = Vec::new();
    let mut line = String::new();
    let mut w: usize = 0;
    let mut esc = String::new();
    let mut style: Option<String> = None;
    let mut i: usize = 0;
    while i < n
        invariant
            i <= n,
            n as nat == text@.len(),
            width > 0,
            reset_string@ == "\x1b[0m"@,
            ({
                let st = cell_wrap_run(cell_wrap_init(), text@.subrange(0, i as int), width as nat);
                &&& lines.deep_view() == st.lines
                &&& line@ == st.line
                &&& w as nat == st.w
                &&& esc@ == st.esc
                &&& (match style {
                    Some(sty) => st.style == Some(sty@),
                    None => st.style is None,
                })
            }),
        decreases n - i,
    {
        let ghost pre = text@.subrange(0, i as int);
        let ghost st = cell_wrap_run(cell_wrap_init(), pre, width as nat);
        let c = text.get_char(i);
        proof {
            assert(text@.subrange(0, i as int + 1) =~= pre.push(c));
            lemma_cell_wrap_run_push(cell_wrap_init(), pre, c, width as nat);
        }
        if !esc.as_str().is_empty() || c == '\x1b' {
            push_char(&mut esc, c);
            if c == 'm' {
                style = if esc == reset_string {
                    None
                } else {
                    Some(esc.clone())
                };
                line.append(esc.as_str());
                esc = String::new();
            }
        } else {
            let cw = display_width(c);
            let over = match w.checked_add(cw) {
                Some(t) => t > width,
                None => true,
            };
            if over && w > 0 {
                line.append(reset_string.as_str());
                let ghost old_lines = lines.deep_view();
                let ghost closed = line@;
                lines.push(line);
                line = match &style {
                    Some(sty) => sty.clone(),
                    None => String::new(),
                };
                w = 0;
                proof {
                    assert(lines.deep_view() =~= old_lines.push(closed));
                }
            }
            push_char(&mut line, c);
            w = w + cw;
        }
        i = i + 1;
    }
    proof {
        assert(text@.subrange(0, n as int) =~= text@);
    }
    if !line.as_str().is_empty() {
        let ghost old_lines = lines.deep_view();
        let ghost lv = line@;
        lines.push(line);
        proof {
            assert(lines.deep_view() =~= old_lines.push(lv));
        }
    }
    if lines.len() == 0 {
        lines.push(String::new());
        proof {
            assert(lines.deep_view() =~= seq![Seq::<char>::empty()]);
        }
    }
    lines
}

/// The rows with every cell formatted.
pub open spec fn formatted_rows(rows: Seq<Seq<Seq<char>>>) -> Seq<Seq<Seq<char>>> {
    rows.map_values(
        |row: Seq<Seq<char>>| row.map_values(|c: Seq<char>| formatted_cell(c)),
    )
}

/// The column count of a table: the longest row's length.
pub open spec fn max_cols(rows: Seq<Seq<Seq<char>>>) -> nat
    decreases rows.len(),
{
    if rows.len() == 0 {
        0
    } else {
        let m = max_cols(rows.drop_last());
        if rows.last().len() > m {
            rows.last().len()
        } else {
            m
        }
    }
}

/// The natural width of column `j`: the widest formatted cell in it.
pub open spec fn col_nat_width(frows: Seq<Seq<Seq<char>>>, j: int) -> nat
    decreases frows.len(),
{
    if frows.len() == 0 {
        0
    } else {
        let m = col_nat_width(frows.drop_last(), j);
        let w: nat = if 0 <= j < frows.last().len() {
            visible_width_sat(frows.last()[j])
        } else {
            0
        };
        if w > m {
            w
        } else {
            m
        }
    }
}

pub open spec fn sum_widths(ws: Seq<nat>) -> nat
    decreases ws.len(),
{
    if ws.len() == 0 {
        0
    } else {
        sum_widths(ws.drop_last()) + ws.last()
    }
}

/// One column's shrunk width: its proportional share of the available
/// space, never below the floor of five columns.
pub open spec fn shrunk_width(wj: nat, avail: nat, total: nat) -> nat {
    let s = wj * avail / total;
    if s >= 5 {
        s
    } else {
        5
    }
}

/// The final column widths: natural widths, shrunk proportionally when
/// the table with its borders and padding would exceed the maximum width
/// and the maximum leaves room beyond the fixed overhead.
pub open spec fn final_widths(
    frows: Seq<Seq<Seq<char>>>,
    n: nat,
    margin_vis: nat,
    max_width: nat,
) -> Seq<nat> {
    let nat_ws = Seq::new(n, |j: int| col_nat_width(frows, j));
    let overhead = margin_vis + 1 + 3 * n;
    let total = sum_widths(nat_ws);
    if overhead + total > max_width && max_width > overhead && total > 0 {
        Seq::new(n, |j: int| shrunk_width(nat_ws[j], (max_width - overhead) as nat, total))
    } else {
        nat_ws
    }
}

/// The widths of a vector of machine words, as mathematical numbers.
pub open spec fn widths_view(ws: Seq<usize>) -> Seq<nat> {
    ws.map_values(|w: usize| w as nat)
}

proof fn lemma_sum_widths_push(ws: Seq<nat>, w: nat)
    ensures
        sum_widths(ws.push(w)) == sum_widths(ws) + w,
{
    assert(ws.push(w).drop_last() =~= ws);
}

/// Every element of a width vector is at most the vector's sum.
proof fn lemma_sum_widths_element(ws: Seq<nat>, j: int)
    requires
        0 <= j < ws.len(),
    ensures
        ws[j] <= sum_widths(ws),
    decreases ws.len(),
{
    if j == ws.len() - 1 {
    } else {
        lemma_sum_widths_element(ws.drop_last(), j);
    }
}

/// Compute the final column widths of a table with `n` columns whose
/// formatted rows are `frows`. States the shrink floor: whenever the
/// table must shrink, no column ends below five columns wide.
pub fn column_widths(frows: &Vec<Vec<String>>, n: usize, margin_vis: usize, max_width: usize) -> (ws:
    Vec<usize>)
    requires
        n as nat == max_cols(frows.deep_view()),
    ensures
        widths_view(ws@) == final_widths(
            frows.deep_view(),
            n as nat,
            margin_vis as nat,
            max_width as nat,
        ),
        ws@.len() == n,
        ({
            let nat_ws = Seq::new(n as nat, |j: int| col_nat_width(frows.deep_view(), j));
            let overhead = margin_vis as nat + 1 + 3 * n as nat;
            let total = sum_widths(nat_ws);
            (overhead + total > max_width as nat && max_width as nat > overhead && total > 0)
                ==> forall|j: int| 0 <= j < ws@.len() ==> (#[trigger] ws@[j]) >= 5
        }),
{
    let ghost gfrows = frows.deep_view();
    let ghost nat_ws = Seq::new(n as nat, |j: int| col_nat_width(gfrows, j));
    let mut ws: Vec<usize> = Vec::new();
    let mut j: usize = 0;
    while j < n
        invariant
            j <= n,
            gfrows == frows.deep_view(),
            ws@.len() == j,
            forall|k: int| 0 <= k < j as int ==> (#[trigger] ws@[k]) as nat == col_nat_width(gfrows, k),
        decreases n - j,
    {
        let mut wj: usize = 0;
        let mut i: usize = 0;
        while i < frows.len()
            invariant
                i <= frows@.len(),
                gfrows == frows.deep_view(),
                gfrows.len() == frows@.len(),
                wj as nat == col_nat_width(gfrows.subrange(0, i as int), j as int),
            decreases frows@.len() - i,
        {
            let ghost pre = gfrows.subrange(0, i as int);
            proof {
                assert(gfrows.subrange(0, i as int + 1) =~= pre.push(gfrows[i as int]));
                assert(pre.push(gfrows[i as int]).drop_last() =~= pre);
                assert(gfrows[i as int] == frows@[i as int].deep_view());
            }
            let row = &frows[i];
            if j < row.len() {
                let cw = visible_length(row[j].as_str());
                proof {
                    assert(frows@[i as int].deep_view()[j as int] == frows@[i as int]@[j as int]@);
                }
                if cw > wj {
                    wj = cw;
                }
            }
            i = i + 1;
        }
        proof {
            assert(gfrows.subrange(0, gfrows.len() as int) =~= gfrows);
        }
        ws.push(wj);
        j = j + 1;
    }
    proof {
        assert(widths_view(ws@) =~= nat_ws);
    }

    // total natural width, exact in a double machine word
    let mut total: u128 = 0;
    let mut j2: usize = 0;
    while j2 < n
        invariant
            j2 <= n,
            ws@.len() == n,
            widths_view(ws@) == nat_ws,
            nat_ws.len() == n,
            total as nat == sum_widths(nat_ws.subrange(0, j2 as int)),
            total as nat <= (j2 as nat) * (usize::MAX as nat),
        decreases n - j2,
    {
        let ghost pre = nat_ws.subrange(0, j2 as int);
        proof {
            assert(nat_ws.subrange(0, j2 as int + 1) =~= pre.push(nat_ws[j2 as int]));
            lemma_sum_widths_push(pre, nat_ws[j2 as int]);
            assert((j2 as nat) * (usize::MAX as nat) + usize::MAX as nat == (j2 as nat + 1) * (
            usize::MAX as nat)) by (nonlinear_arith);
            assert((j2 as nat + 1) * (usize::MAX as nat) <= (n as nat) * (usize::MAX as nat)
                <= u128::MAX as nat) by (nonlinear_arith)
                requires
                    j2 as nat + 1 <= n as nat,
                    n <= usize::MAX,
            ;
        }
        total = total + (ws[j2] as u128);
        j2 = j2 + 1;
    }
    proof {
        assert(nat_ws.subrange(0, n as int) =~= nat_ws);
    }

    let overhead: u128 = (margin_vis as u128) + 1 + 3 * (n as u128);
    let maxw: u128 = max_width as u128;
    let shrink = maxw > overhead && total > 0 && total > maxw - overhead;
    proof {
        assert(shrink == (overhead as nat + total as nat > max_width as nat && max_width as nat
            > overhead as nat && total > 0));
    }
    if shrink {
        let avail: u128 = maxw - overhead;
        let mut shrunk: Vec<usize> = Vec::new();
        let mut j3: usize = 0;
        while j3 < n
            invariant
                j3 <= n,
                ws@.len() == n,
                widths_view(ws@) == nat_ws,
                nat_ws.len() == n,
                total as nat == sum_widths(nat_ws),
                total > 0,
                avail <= usize::MAX as u128,
                shrunk@.len() == j3,
                forall|k: int|
                    0 <= k < j3 as int ==> (#[trigger] shrunk@[k]) as nat == shrunk_width(
                        nat_ws[k],
                        avail as nat,
                        total as nat,
                    ),
                forall|k: int| 0 <= k < j3 as int ==> (#[trigger] shrunk@[k]) >= 5,
            decreases n - j3,
        {
            let wj = ws[j3];
            proof {
                assert((wj as nat) * (avail as nat) <= (usize::MAX as nat) * (usize::MAX as nat)
                    < u128::MAX as nat) by (nonlinear_arith)
                    requires
                        wj as nat <= usize::MAX as nat,
                        avail as nat <= usize::MAX as nat,
                ;
                lemma_sum_widths_element(nat_ws, j3 as int);
                assert((wj as u128) * avail <= total * avail) by {
                    lemma_mul_inequality(wj as int, total as int, avail as int);
                }
                lemma_div_is_ordered((wj as u128 * avail) as int, (total * avail) as int, total as int);
                assert((total as int * avail as int) / (total as int) == avail as int) by {
                    lemma_mul_is_commutative(total as int, avail as int);
                    lemma_div_by_multiple(avail as int, total as int);
                }
            }
            let s: u128 = (wj as u128) * avail / total;
            let sj: usize = if s >= 5 {
                s as usize
            } else {
                5
            };
            shrunk.push(sj);
            j3 = j3 + 1;
        }
        proof {
            assert(widths_view(shrunk@) =~= final_widths(
                gfrows,
                n as nat,
                margin_vis as nat,
                max_width as nat,
            ));
        }
        shrunk
    } else {
        proof {
            assert(widths_view(ws@) =~= final_widths(
                gfrows,
                n as nat,
                margin_vis as nat,
                max_width as nat,
            ));
        }
        ws
    }
}

/// The pieces joined with `sep` between each neighbouring pair.
pub open spec fn joined(ps: Seq<Seq<char>>, sep: Seq<char>) -> Seq<char>
    decreases ps.len(),
{
    if ps.len() == 0 {
        Seq::empty()
    } else if ps.len() == 1 {
        ps[0]
    } else {
        joined(ps.drop_last(), sep) + sep + ps.last()
    }
}

/// One horizontal border line: margin, left glyph, a styled dash run of
/// each column's width plus padding, junction glyphs between columns, and
/// the right glyph.
pub open spec fn hline_spec<S: BlockStyler>(
    styler: &S,
    margin: Seq<char>,
    ws: Seq<nat>,
    l: Seq<char>,
    m: Seq<char>,
    r: Seq<char>,
) -> Seq<char> {
    let pieces = Seq::new(
        ws.len(),
        |j: int| styler.table_border_spec(char_seq('\u{2500}', sat_add(ws[j], 2))),
    );
    margin + styler.table_border_spec(l) + joined(pieces, styler.table_border_spec(m))
        + styler.table_border_spec(r)
}

/// One cell's contribution to a rendered line: one space, the chunk
/// (header-styled on the first line of a header row), trailing spaces up
/// to the column width, and one space.
pub open spec fn padded_piece<S: BlockStyler>(
    styler: &S,
    c: Seq<char>,
    wj: nat,
    header: bool,
) -> Seq<char> {
    let v = visible_width_sat(c);
    let pad = spaces(if wj >= v {
        (wj - v) as nat
    } else {
        0
    });
    if header && c.len() > 0 {
        " "@ + styler.table_header_spec(c) + pad + " "@
    } else {
        " "@ + c + pad + " "@
    }
}

/// The formatted content of column `j` in a row; a missing cell formats
/// as the empty cell does.
pub open spec fn cell_at(row: Seq<Seq<char>>, j: int) -> Seq<char> {
    if 0 <= j < row.len() {
        row[j]
    } else {
        formatted_cell(""@)
    }
}

/// Every cell of a row wrapped to its column's width.
pub open spec fn wrapped_cells(row: Seq<Seq<char>>, ws: Seq<nat>) -> Seq<Seq<Seq<char>>> {
    Seq::new(ws.len(), |j: int| cell_wrap_spec(cell_at(row, j), ws[j]))
}

/// The rendered height of a row: its tallest wrapped cell.
pub open spec fn max_chunks(wc: Seq<Seq<Seq<char>>>) -> nat
    decreases wc.len(),
{
    if wc.len() == 0 {
        0
    } else {
        let m = max_chunks(wc.drop_last());
        if wc.last().len() > m {
            wc.last().len()
        } else {
            m
        }
    }
}

/// Chunk `li` of column `j`, or nothing where the cell is shorter.
pub open spec fn chunk_at(wc: Seq<Seq<Seq<char>>>, j: int, li: int) -> Seq<char> {
    if 0 <= j < wc.len() && 0 <= li < wc[j].len() {
        wc[j][li]
    } else {
        Seq::empty()
    }
}

/// One rendered content line of a row: margin, then each cell's padded
/// piece, separated and enclosed by the styled vertical border glyph.
pub open spec fn row_line_spec<S: BlockStyler>(
    styler: &S,
    margin: Seq<char>,
    wc: Seq<Seq<Seq<char>>>,
    ws: Seq<nat>,
    li: int,
    header_row: bool,
) -> Seq<char> {
    let b = styler.table_border_spec("\u{2502}"@);
    let pieces = Seq::new(
        ws.len(),
        |j: int| padded_piece(styler, chunk_at(wc, j, li), ws[j], header_row && li == 0),
    );
    margin + b + joined(pieces, b) + b
}

/// All rendered content lines of one row.
pub open spec fn row_block_spec<S: BlockStyler>(
    styler: &S,
    margin: Seq<char>,
    row: Seq<Seq<char>>,
    ws: Seq<nat>,
    header_row: bool,
) -> Seq<Seq<char>> {
    let wc = wrapped_cells(row, ws);
    let h = max_chunks(wc);
    Seq::new(h as nat, |li: int| row_line_spec(styler, margin, wc, ws, li, header_row))
}

/// The rendered lines of the first `i` rows: each row's block, and the
/// header separator after the first row of a multi-row table.
pub open spec fn blocks_prefix<S: BlockStyler>(
    styler: &S,
    margin: Seq<char>,
    frows: Seq<Seq<Seq<char>>>,
    ws: Seq<nat>,
    multi: bool,
    i: int,
) -> Seq<Seq<char>>
    decreases i,
{
    if i <= 0 {
        seq![]
    } else {
        blocks_prefix(styler, margin, frows, ws, multi, i - 1) + row_block_spec(
            styler,
            margin,
            frows[i - 1],
            ws,
            multi && i - 1 == 0,
        ) + if multi && i - 1 == 0 {
            seq![hline_spec(styler, margin, ws, "\u{251c}"@, "\u{253c}"@, "\u{2524}"@)]
        } else {
            seq![]
        }
    }
}

/// The full rendered table: nothing at all for an empty row set or zero
/// columns; otherwise a top border, the rows (the first header-styled and
/// followed by a separator when more than one row exists), and a bottom
/// border.
pub open spec fn table_spec<S: BlockStyler>(
    rows: Seq<Seq<Seq<char>>>,
    margin: Seq<char>,
    styler: &S,
    max_width: usize,
) -> Seq<Seq<char>> {
    let n = max_cols(rows);
    if rows.len() == 0 || n == 0 {
        seq![]
    } else {
        let frows = formatted_rows(rows);
        let ws = final_widths(frows, n, visible_width_sat(margin), max_width as nat);
        seq![hline_spec(styler, margin, ws, "\u{250c}"@, "\u{252c}"@, "\u{2510}"@)]
            + blocks_prefix(styler, margin, frows, ws, rows.len() > 1, rows.len() as int) + seq![
            hline_spec(styler, margin, ws, "\u{2514}"@, "\u{2534}"@, "\u{2518}"@),
        ]
    }
}

/// The shrink floor: whenever a table must shrink to fit, no column ends
/// below five visible columns wide.
pub proof fn lemma_shrink_floor(
    frows: Seq<Seq<Seq<char>>>,
    n: nat,
    margin_vis: nat,
    max_width: nat,
)
    requires
        ({
            let nat_ws = Seq::new(n, |j: int| col_nat_width(frows, j));
            let overhead = margin_vis + 1 + 3 * n;
            let total = sum_widths(nat_ws);
            overhead + total > max_width && max_width > overhead && total > 0
        }),
    ensures
        forall|j: int|
            0 <= j < n ==> #[trigger] final_widths(frows, n, margin_vis, max_width)[j] >= 5,
{
}

/// How often `c` occurs in `s`.
pub open spec fn count_char(s: Seq<char>, c: char) -> nat
    decreases s.len(),
{
    if s.len() == 0 {
        0
    } else {
        count_char(s.drop_last(), c) + (if s.last() == c {
            1nat
        } else {
            0
        })
    }
}

pub proof fn lemma_count_char_add(a: Seq<char>, b: Seq<char>, c: char)
    ensures
        count_char(a + b, c) == count_char(a, c) + count_char(b, c),
    decreases b.len(),
{
    if b.len() == 0 {
        assert(a + b =~= a);
    } else {
        let p = b.drop_last();
        assert((a + b).drop_last() =~= a + p);
        assert((a + b).last() == b.last());
        lemma_count_char_add(a, p, c);
    }
}

proof fn lemma_joined_count(ps: Seq<Seq<char>>, sep: Seq<char>, c: char)
    requires
        ps.len() > 0,
        count_char(sep, c) == 1,
        forall|k: int| 0 <= k < ps.len() ==> count_char(#[trigger] ps[k], c) == 0,
    ensures
        count_char(joined(ps, sep), c) == ps.len() - 1,
    decreases ps.len(),
{
    if ps.len() == 1 {
    } else {
        let p = ps.drop_last();
        lemma_joined_count(p, sep, c);
        lemma_count_char_add(joined(p, sep), sep, c);
        lemma_count_char_add(joined(p, sep) + sep, ps.last(), c);
    }
}

/// The border-count law for table rows: every rendered row line has the
/// shape margin, border, cells joined by borders, border — so when the
/// styled border holds the glyph exactly once and neither margin nor any
/// cell piece holds it, the line shows exactly one border glyph more than
/// it has columns.
pub proof fn lemma_row_border_count(
    pieces: Seq<Seq<char>>,
    margin: Seq<char>,
    border: Seq<char>,
    glyph: char,
)
    requires
        pieces.len() > 0,
        count_char(border, glyph) == 1,
        count_char(margin, glyph) == 0,
        forall|k: int| 0 <= k < pieces.len() ==> count_char(#[trigger] pieces[k], glyph) == 0,
    ensures
        count_char(margin + border + joined(pieces, border) + border, glyph) == pieces.len() + 1,
{
    lemma_joined_count(pieces, border, glyph);
    lemma_count_char_add(margin, border, glyph);
    lemma_count_char_add(margin + border, joined(pieces, border), glyph);
    lemma_count_char_add(margin + border + joined(pieces, border), border, glyph);
}

/// Build one horizontal border line.
#[verifier::rlimit(60)]
fn hline<S: BlockStyler>(
    styler: &S,
    margin: &str,
    ws: &Vec<usize>,
    l: &str,
    m: &str,
    r: &str,
) -> (out: String)
    ensures
        out@ == hline_spec(styler, margin@, widths_view(ws@), l@, m@, r@),
{
    let ghost gws = widths_view(ws@);
    let ghost sep = styler.table_border_spec(m@);
    let ghost pieces = Seq::new(
        gws.len(),
        |j: int| styler.table_border_spec(char_seq('\u{2500}', sat_add(gws[j], 2))),
    );
    let mut out = String::from_str(margin);
    out.append(styler.table_border(l).as_str());
    let mid = styler.table_border(m);
    let mut j: usize = 0;
    while j < ws.len()
        invariant
            j <= ws@.len(),
            gws == widths_view(ws@),
            sep == styler.table_border_spec(m@),
            pieces == Seq::new(
                gws.len(),
                |j: int| styler.table_border_spec(char_seq('\u{2500}', sat_add(gws[j], 2))),
            ),
            mid@ == sep,
            out@ == margin@ + styler.table_border_spec(l@) + joined(
                pieces.subrange(0, j as int),
                sep,
            ),
        decreases ws@.len() - j,
    {
        let ghost pre = pieces.subrange(0, j as int);
        if j > 0 {
            out.append(mid.as_str());
        }
        let cnt = match ws[j].checked_add(2) {
            Some(v) => v,
            None => usize::MAX,
        };
        proof {
            assert(gws[j as int] == ws@[j as int] as nat);
            assert(cnt as nat == sat_add(gws[j as int], 2));
        }
        let dash = repeat_char('\u{2500}', cnt);
        out.append(styler.table_border(dash.as_str()).as_str());
        proof {
            assert(pieces.subrange(0, j as int + 1) =~= pre.push(pieces[j as int]));
            assert(pre.push(pieces[j as int]).drop_last() =~= pre);
            if j == 0 {
                assert(out@ =~= margin@ + styler.table_border_spec(l@) + joined(
                    pieces.subrange(0, 1),
                    sep,
                ));
            } else {
                assert(out@ =~= margin@ + styler.table_border_spec(l@) + (joined(pre, sep) + sep
                    + pieces[j as int]));
            }
        }
        j = j + 1;
    }
    proof {
        assert(pieces.subrange(0, ws@.len() as int) =~= pieces);
    }
    out.append(styler.table_border(r).as_str());
    proof {
        assert(out@ =~= hline_spec(styler, margin@, gws, l@, m@, r@));
    }
    out
}

/// Build one rendered content line of a row.
#[verifier::rlimit(100)]
#[verifier::spinoff_prover]
fn row_line<S: BlockStyler>(
    styler: &S,
    margin: &str,
    wrapped: &Vec<Vec<String>>,
    ws: &Vec<usize>,
    li: usize,
    header_row: bool,
) -> (out: String)
    requires
        wrapped.deep_view().len() == ws@.len(),
    ensures
        out@ == row_line_spec(
            styler,
            margin@,
            wrapped.deep_view(),
            widths_view(ws@),
            li as int,
            header_row,
        ),
{
    let ghost gws = widths_view(ws@);
    let ghost wc = wrapped.deep_view();
    let ghost b = styler.table_border_spec("\u{2502}"@);
    let ghost pieces = Seq::new(
        gws.len(),
        |j: int| padded_piece(styler, chunk_at(wc, j, li as int), gws[j], header_row && li == 0),
    );
    let border = styler.table_border("\u{2502}");
    let mut out = String::from_str(margin);
    out.append(border.as_str());
    let mut j: usize = 0;
    while j < ws.len()
        invariant
            j <= ws@.len(),
            gws == widths_view(ws@),
            wc == wrapped.deep_view(),
            wc.len() == ws@.len(),
            wrapped@.len() == ws@.len(),
            b == styler.table_border_spec("\u{2502}"@),
            border@ == b,
            pieces == Seq::new(
                gws.len(),
                |j: int|
                    padded_piece(
                        styler,
                        chunk_at(wc, j, li as int),
                        gws[j],
                        header_row && li == 0,
                    ),
            ),
            out@ == margin@ + b + joined(pieces.subrange(0, j as int), b),
        decreases ws@.len() - j,
    {
        let ghost pre = pieces.subrange(0, j as int);
        if j > 0 {
            out.append(border.as_str());
        }
        let cell_chunks = &wrapped[j];
        let c: &str = if li < cell_chunks.len() {
            cell_chunks[li].as_str()
        } else {
            ""
        };
        proof {
            reveal_strlit("");
            assert(wc[j as int] == wrapped@[j as int].deep_view());
            if li < cell_chunks@.len() {
                assert(wrapped@[j as int].deep_view()[li as int] == wrapped@[j as int]@[li as int]@);
            } else {
                assert(c@ =~= Seq::<char>::empty());
            }
            assert(c@ == chunk_at(wc, j as int, li as int));
        }
        let vis = visible_length(c);
        let wj = ws[j];
        let padn = if wj >= vis {
            wj - vis
        } else {
            0
        };
        let pad = space_string(padn);
        out.append(" ");
        if header_row && li == 0 && !c.is_empty() {
            out.append(styler.table_header(c).as_str());
        } else {
            out.append(c);
        }
        out.append(pad.as_str());
        out.append(" ");
        proof {
            assert(pieces.subrange(0, j as int + 1) =~= pre.push(pieces[j as int]));
            assert(pre.push(pieces[j as int]).drop_last() =~= pre);
            assert(out@ =~= margin@ + b + joined(pieces.subrange(0, j as int + 1), b));
        }
        j = j + 1;
    }
    proof {
        assert(pieces.subrange(0, ws@.len() as int) =~= pieces);
    }
    out.append(border.as_str());
    proof {
        assert(out@ =~= row_line_spec(styler, margin@, wc, gws, li as int, header_row));
    }
    out
}

proof fn lemma_max_cols_formatted(rows: Seq<Seq<Seq<char>>>)
    ensures
        max_cols(formatted_rows(rows)) == max_cols(rows),
    decreases rows.len(),
{
    if rows.len() > 0 {
        lemma_max_cols_formatted(rows.drop_last());
        assert(formatted_rows(rows).drop_last() =~= formatted_rows(rows.drop_last()));
        assert(formatted_rows(rows).last().len() == rows.last().len());
    }
}

/// Render a table with proper column widths, shrinking and wrapping as
/// needed. An empty row set, or one without any cell, renders nothing.
pub fn render_table<S: BlockStyler>(
    rows: &Vec<Vec<String>>,
    margin: &str,
    styler: &S,
    max_width: usize,
) -> (out: Vec<String>)
    ensures
        out.deep_view() == table_spec(rows.deep_view(), margin@, styler, max_width),
{
    let ghost grows = rows.deep_view();
    // column count
    let mut n: usize = 0;
    let mut i: usize = 0;
    while i < rows.len()
        invariant
            i <= rows@.len(),
            grows == rows.deep_view(),
            grows.len() == rows@.len(),
            n as nat == max_cols(grows.subrange(0, i as int)),
        decreases rows@.len() - i,
    {
        let ghost pre = grows.subrange(0, i as int);
        proof {
            assert(grows.subrange(0, i as int + 1) =~= pre.push(grows[i as int]));
            assert(pre.push(grows[i as int]).drop_last() =~= pre);
            assert(grows[i as int].len() == rows@[i as int]@.len());
        }
        if rows[i].len() > n {
            n = rows[i].len();
        }
        i = i + 1;
    }
    proof {
        assert(grows.subrange(0, rows@.len() as int) =~= grows);
    }
    if rows.len() == 0 || n == 0 {
        let r: Vec<String> = Vec::new();
        proof {
            assert(r.deep_view() =~= table_spec(grows, margin@, styler, max_width));
        }
        return r;
    }

    // format every cell
    let mut frows: Vec<Vec<String>> = Vec::new();
    let mut i2: usize = 0;
    while i2 < rows.len()
        invariant
            i2 <= rows@.len(),
            grows == rows.deep_view(),
            grows.len() == rows@.len(),
            frows@.len() == i2,
            forall|k: int|
                0 <= k < i2 as int ==> (#[trigger] frows.deep_view()[k]) == formatted_rows(
                    grows,
                )[k],
        decreases rows@.len() - i2,
    {
        let row = &rows[i2];
        let ghost grow = grows[i2 as int];
        proof {
            assert(grow.len() == row@.len());
            assert(forall|k: int| 0 <= k < grow.len() ==> #[trigger] grow[k] == row@[k]@);
        }
        let mut frow: Vec<String> = Vec::new();
        let mut j: usize = 0;
        while j < row.len()
            invariant
                j <= row@.len(),
                grow.len() == row@.len(),
                forall|k: int| 0 <= k < grow.len() ==> #[trigger] grow[k] == row@[k]@,
                frow@.len() == j,
                forall|k: int|
                    0 <= k < j as int ==> (#[trigger] frow.deep_view()[k]) == formatted_cell(
                        grow[k],
                    ),
            decreases row@.len() - j,
        {
            let ghost prev = frow@;
            let ghost prev_dv = frow.deep_view();
            frow.push(format_cell(row[j].as_str()));
            proof {
                assert forall|k: int|
                    0 <= k < j as int + 1 implies (#[trigger] frow.deep_view()[k])
                    == formatted_cell(grow[k]) by {
                    assert(frow.deep_view()[k] == frow@[k]@);
                    if k < j as int {
                        assert(frow@[k] == prev[k]);
                        assert(prev_dv[k] == prev[k]@);
                        assert(prev_dv[k] == formatted_cell(grow[k]));
                    }
                }
            }
            j = j + 1;
        }
        proof {
            assert(frow.deep_view() =~= grow.map_values(|c: Seq<char>| formatted_cell(c)));
            assert(formatted_rows(grows)[i2 as int] == grow.map_values(
                |c: Seq<char>| formatted_cell(c),
            ));
        }
        let ghost prev_rows = frows@;
        let ghost prev_rows_dv = frows.deep_view();
        let ghost frow_dv = frow.deep_view();
        frows.push(frow);
        proof {
            assert forall|k: int|
                0 <= k < i2 as int + 1 implies (#[trigger] frows.deep_view()[k]) == formatted_rows(
                grows,
            )[k] by {
                assert(frows.deep_view()[k] == frows@[k].deep_view());
                if k < i2 as int {
                    assert(frows@[k] == prev_rows[k]);
                    assert(prev_rows_dv[k] == prev_rows[k].deep_view());
                    assert(prev_rows_dv[k] == formatted_rows(grows)[k]);
                } else {
                    assert(frows@[k].deep_view() == frow_dv);
                }
            }
        }
        i2 = i2 + 1;
    }
    proof {
        assert(frows.deep_view() =~= formatted_rows(grows));
        lemma_max_cols_formatted(grows);
    }
    let ghost gfrows = formatted_rows(grows);
    proof {
        assert(frows.deep_view() == gfrows);
    }

    let margin_vis = visible_length(margin);
    let ws = column_widths(&frows, n, margin_vis, max_width);
    let ghost gws = final_widths(gfrows, n as nat, visible_width_sat(margin@), max_width as nat);
    proof {
        assert(widths_view(ws@) == gws);
    }

    let empty_cell = format_cell("");
    let multi = rows.len() > 1;
    let mut out: Vec<String> = Vec::new();
    out.push(hline(styler, margin, &ws, "\u{250c}", "\u{252c}", "\u{2510}"));
    proof {
        reveal_strlit("");
        assert(out.deep_view() =~= seq![
            hline_spec(styler, margin@, gws, "\u{250c}"@, "\u{252c}"@, "\u{2510}"@),
        ] + blocks_prefix(styler, margin@, gfrows, gws, multi, 0));
    }
    let mut ri: usize = 0;
    while ri < frows.len()
        invariant
            ri <= frows@.len(),
            grows == rows.deep_view(),
            gfrows == frows.deep_view(),
            gfrows.len() == frows@.len(),
            gfrows.len() == grows.len(),
            multi == (grows.len() > 1),
            gws == widths_view(ws@),
            ws@.len() == n,
            empty_cell@ == formatted_cell(""@),
            out.deep_view() == seq![
                hline_spec(styler, margin@, gws, "\u{250c}"@, "\u{252c}"@, "\u{2510}"@),
            ] + blocks_prefix(styler, margin@, gfrows, gws, multi, ri as int),
        decreases frows@.len() - ri,
    {
        let ghost row = gfrows[ri as int];
        let ghost wc = wrapped_cells(row, gws);
        let frow = &frows[ri];
        proof {
            assert(row == frow.deep_view());
        }
        // wrap each cell to its column's width
        let mut wrapped: Vec<Vec<String>> = Vec::new();
        let mut j: usize = 0;
        while j < n
            invariant
                j <= n,
                ws@.len() == n,
                gws == widths_view(ws@),
                row == frow.deep_view(),
                row.len() == frow@.len(),
                wc == wrapped_cells(row, gws),
                empty_cell@ == formatted_cell(""@),
                wrapped@.len() == j,
                forall|k: int|
                    0 <= k < j as int ==> (#[trigger] wrapped@[k]).deep_view() == wc[k],
            decreases n - j,
        {
            let cell: &str = if j < frow.len() {
                frow[j].as_str()
            } else {
                empty_cell.as_str()
            };
            proof {
                reveal_strlit("");
                if j < frow@.len() {
                    assert(frow.deep_view()[j as int] == frow@[j as int]@);
                }
                assert(cell@ == cell_at(row, j as int));
            }
            wrapped.push(wrap(cell, ws[j]));
            j = j + 1;
        }
        proof {
            assert(wrapped.deep_view() =~= wc);
        }
        // row height
        let mut height: usize = 0;
        let mut j2: usize = 0;
        while j2 < n
            invariant
                j2 <= n,
                wrapped@.len() == n,
                wrapped.deep_view() == wc,
                wc.len() == n,
                ws@.len() == n,
                gws == widths_view(ws@),
                row == gfrows[ri as int],
                wc == wrapped_cells(row, gws),
                height as nat == max_chunks(wc.subrange(0, j2 as int)),
            decreases n - j2,
        {
            let ghost pre = wc.subrange(0, j2 as int);
            proof {
                assert(wc.subrange(0, j2 as int + 1) =~= pre.push(wc[j2 as int]));
                assert(pre.push(wc[j2 as int]).drop_last() =~= pre);
                assert(wc[j2 as int] == wrapped@[j2 as int].deep_view());
            }
            if wrapped[j2].len() > height {
                height = wrapped[j2].len();
            }
            j2 = j2 + 1;
        }
        proof {
            assert(wc.subrange(0, n as int) =~= wc);
        }
        let header_row = multi && ri == 0;
        let mut li: usize = 0;
        while li < height
            invariant
                li <= height,
                height as nat == max_chunks(wc),
                gws == widths_view(ws@),
                ws@.len() == n,
                wc.len() == n,
                wrapped.deep_view() == wc,
                wrapped@.len() == n,
                row == gfrows[ri as int],
                wc == wrapped_cells(row, gws),
                ri < gfrows.len(),
                header_row == (multi && ri == 0),
                out.deep_view() == seq![
                    hline_spec(styler, margin@, gws, "\u{250c}"@, "\u{252c}"@, "\u{2510}"@),
                ] + blocks_prefix(styler, margin@, gfrows, gws, multi, ri as int) + row_block_spec(
                    styler,
                    margin@,
                    row,
                    gws,
                    header_row,
                ).subrange(0, li as int),
            decreases height - li,
        {
            let line = row_line(styler, margin, &wrapped, &ws, li, header_row);
            let ghost old_out = out.deep_view();
            let ghost lv = line@;
            out.push(line);
            proof {
                assert(out.deep_view() =~= old_out.push(lv));
                assert(row_block_spec(styler, margin@, row, gws, header_row).subrange(
                    0,
                    li as int + 1,
                ) =~= row_block_spec(styler, margin@, row, gws, header_row).subrange(
                    0,
                    li as int,
                ).push(lv));
                assert(out.deep_view() =~= seq![
                    hline_spec(styler, margin@, gws, "\u{250c}"@, "\u{252c}"@, "\u{2510}"@),
                ] + blocks_prefix(styler, margin@, gfrows, gws, multi, ri as int)
                    + row_block_spec(styler, margin@, row, gws, header_row).subrange(
                    0,
                    li as int + 1,
                ));
            }
            li = li + 1;
        }
        proof {
            assert(row_block_spec(styler, margin@, row, gws, header_row).subrange(
                0,
                height as int,
            ) =~= row_block_spec(styler, margin@, row, gws, header_row));
        }
        if multi && ri == 0 {
            let sep = hline(styler, margin, &ws, "\u{251c}", "\u{253c}", "\u{2524}");
            let ghost old_out = out.deep_view();
            let ghost sv = sep@;
            out.push(sep);
            proof {
                assert(out.deep_view() =~= old_out.push(sv));
            }
        }
        proof {
            assert(out.deep_view() =~= seq![
                hline_spec(styler, margin@, gws, "\u{250c}"@, "\u{252c}"@, "\u{2510}"@),
            ] + blocks_prefix(styler, margin@, gfrows, gws, multi, ri as int + 1));
        }
        ri = ri + 1;
    }
    let bottom = hline(styler, margin, &ws, "\u{2514}", "\u{2534}", "\u{2518}");
    let ghost old_out = out.deep_view();
    let ghost bv = bottom@;
    out.push(bottom);
    proof {
        assert(out.deep_view() =~= old_out.push(bv));
        assert(out.deep_view() =~= table_spec(grows, margin@, styler, max_width));
    }
    out
}

} // verus!
