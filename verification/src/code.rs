//! Code block rendering: character-boundary wrapping that preserves
//! leading indentation, with per-chunk syntax highlighting through the
//! outside highlighting engine.

use vstd::prelude::*;
use crate::strutil::{is_space, is_space_char, space_string, spaces};

verus! {

#[verifier::external_type_specification]
#[verifier::external_body]
pub struct ExSyntaxSet(syntect::parsing::SyntaxSet);

#[verifier::external_type_specification]
#[verifier::external_body]
pub struct ExThemeSet(syntect::highlighting::ThemeSet);

/// Relies on syntect::parsing::SyntaxSet::load_defaults_newlines.
#[verifier::external_body]
fn load_default_syntaxes() -> syntect::parsing::SyntaxSet {
    syntect::parsing::SyntaxSet::load_defaults_newlines()
}

/// Relies on syntect::highlighting::ThemeSet::load_defaults, whose theme
/// table contains the "base16-ocean.dark" theme used below.
#[verifier::external_body]
fn load_default_themes() -> syntect::highlighting::ThemeSet {
    syntect::highlighting::ThemeSet::load_defaults()
}

/// Code block highlighter built on the outside highlighting engine.
pub struct CodeHighlighter {
    syntax_set: syntect::parsing::SyntaxSet,
    theme_set: syntect::highlighting::ThemeSet,
}

impl CodeHighlighter {
    /// Load the engine's default syntax and theme sets.
    pub fn new() -> Self {
        CodeHighlighter { syntax_set: load_default_syntaxes(), theme_set: load_default_themes() }
    }

    /// Highlight a single line of code.
    ///
    /// Relies on syntect's SyntaxSet::find_syntax_by_token (falling back
    /// to find_syntax_plain_text), HighlightLines::new and highlight_line,
    /// and util::as_24_bit_terminal_escaped; when highlighting fails the
    /// line comes back unstyled. Nothing is assumed of the styled result.
    #[verifier::external_body]
    pub fn highlight_line(&self, line: &str, language: Option<&str>) -> String {
        let syntax = language
            .and_then(|lang| self.syntax_set.find_syntax_by_token(lang))
            .unwrap_or_else(|| self.syntax_set.find_syntax_plain_text());
        let theme = &self.theme_set.themes["base16-ocean.dark"];
        let mut highlighter = syntect::easy::HighlightLines::new(syntax, theme);
        match highlighter.highlight_line(line, &self.syntax_set) {
            Ok(ranges) => syntect::util::as_24_bit_terminal_escaped(&ranges[..], false),
            Err(_) => line.to_string(),
        }
    }

    /// Render a code line with margin, wrapping if needed. Every output
    /// line is the margin, the continuation indent for wrapped chunks
    /// after the first, a highlighted form of the chunk, and a full style
    /// reset.
    pub fn render_code_line(&self, line: &str, language: Option<&str>, margin: &str, width: usize) -> (r:
        Vec<String>)
        ensures
            r@.len() == code_wrap_lines(line@, width as nat).len(),
            forall|i: int|
                0 <= i < r@.len() ==> code_line_shape(
                    #[trigger] r.deep_view()[i],
                    margin@,
                    leading_ws_count(line@),
                    i == 0,
                ),
    {
        let (indent, wrapped_lines) = code_wrap(line, width);
        let ghost glines = code_wrap_lines(line@, width as nat);
        let mut result: Vec<String> = Vec::new();
        let mut i: usize = 0;
        while i < wrapped_lines.len()
            invariant
                i <= wrapped_lines@.len(),
                wrapped_lines.deep_view() == glines,
                indent as nat == leading_ws_count(line@),
                result@.len() == i,
                forall|k: int|
                    0 <= k < i as int ==> code_line_shape(
                        #[trigger] result.deep_view()[k],
                        margin@,
                        indent as nat,
                        k == 0,
                    ),
            decreases wrapped_lines@.len() - i,
        {
            let highlighted = self.highlight_line(wrapped_lines[i].as_str(), language);
            let assembled = assemble_code_line(margin, indent, i == 0, highlighted.as_str());
            let ghost prev_dv = result.deep_view();
            let ghost av = assembled@;
            let ghost hv = highlighted@;
            let ghost first = i == 0;
            result.push(assembled);
            proof {
                lemma_code_line_shape(av, margin@, indent as nat, first, hv);
                assert forall|k: int|
                    0 <= k < i as int + 1 implies code_line_shape(
                        #[trigger] result.deep_view()[k],
                        margin@,
                        indent as nat,
                        k == 0,
                    ) by {
                    assert(result.deep_view()[k] == result@[k]@);
                    if k < i as int {
                        assert(result@[k]@ == prev_dv[k]);
                    } else {
                        assert(result@[k]@ == av);
                    }
                }
            }
            i = i + 1;
        }
        result
    }
}

/// The shape of every rendered code line: it begins with the margin and
/// the continuation indent of its position and ends with a full style
/// reset; between the two stands the highlighted chunk.
pub open spec fn code_line_shape(out: Seq<char>, margin: Seq<char>, indent: nat, first: bool) -> bool {
    let pre = margin + (if first {
        Seq::<char>::empty()
    } else {
        code_cont_indent(indent)
    });
    &&& out.len() >= pre.len() + 4
    &&& out.subrange(0, pre.len() as int) == pre
    &&& out.subrange(out.len() - 4, out.len() as int) == "\x1b[0m"@
}

proof fn lemma_code_line_shape(
    out: Seq<char>,
    margin: Seq<char>,
    indent: nat,
    first: bool,
    h: Seq<char>,
)
    requires
        out == margin + (if first {
            Seq::<char>::empty()
        } else {
            code_cont_indent(indent)
        }) + h + "\x1b[0m"@,
    ensures
        code_line_shape(out, margin, indent, first),
{
    reveal_strlit("\x1b[0m");
    let pre = margin + (if first {
        Seq::<char>::empty()
    } else {
        code_cont_indent(indent)
    });
    assert(out.subrange(0, pre.len() as int) =~= pre);
    assert(out.subrange(out.len() - 4, out.len() as int) =~= "\x1b[0m"@);
}

/// The output of one code-block line: some run of rendered lines, one
/// per wrapped chunk of the raw line, each of the rendered code line
/// shape, joined with trailing newlines. The highlighted text between
/// margin and reset is the outside highlighter's and is not pinned here.
pub open spec fn code_block_out(out: Seq<char>, line: Seq<char>, margin: Seq<char>, width: nat) -> bool {
    exists|ls: Seq<Seq<char>>|
        {
            &&& #[trigger] crate::strutil::lines_joined(ls) == out
            &&& ls.len() == code_wrap_lines(line, width).len()
            &&& forall|i: int|
                0 <= i < ls.len() ==> code_line_shape(
                    #[trigger] ls[i],
                    margin,
                    leading_ws_count(line),
                    i == 0,
                )
        }
}

/// The visual indent given to continuation chunks of a wrapped code line:
/// one two-space step plus one per two columns of original indent, capped.
pub open spec fn code_cont_indent(indent: nat) -> Seq<char> {
    let capped = if indent <= 4 {
        indent
    } else {
        4
    };
    spaces(2 * (capped / 2 + 1))
}

/// Assemble one rendered code line from its highlighted chunk.
pub fn assemble_code_line(margin: &str, indent: usize, first: bool, highlighted: &str) -> (r:
    String)
    ensures
        r@ == margin@ + (if first {
            Seq::<char>::empty()
        } else {
            code_cont_indent(indent as nat)
        }) + highlighted@ + "\x1b[0m"@,
{
    let mut r = String::from_str(margin);
    if !first {
        let capped = if indent <= 4 {
            indent
        } else {
            4
        };
        r.append(space_string(2 * (capped / 2 + 1)).as_str());
    }
    r.append(highlighted);
    r.append("\x1b[0m");
    proof {
        assert(r@ =~= margin@ + (if first {
            Seq::<char>::empty()
        } else {
            code_cont_indent(indent as nat)
        }) + highlighted@ + "\x1b[0m"@);
    }
    r
}

/// The number of leading whitespace characters of a line.
pub open spec fn leading_ws_count(s: Seq<char>) -> nat
    decreases s.len(),
{
    if s.len() > 0 && is_space_char(s[0]) {
        1 + leading_ws_count(s.drop_first())
    } else {
        0
    }
}

proof fn lemma_leading_ws_le(s: Seq<char>)
    ensures
        leading_ws_count(s) <= s.len(),
    decreases s.len(),
{
    if s.len() > 0 && is_space_char(s[0]) {
        lemma_leading_ws_le(s.drop_first());
    }
}

/// Whether every character of `s` is whitespace.
pub open spec fn all_ws(s: Seq<char>) -> bool {
    forall|i: int| 0 <= i < s.len() ==> is_space_char(#[trigger] s[i])
}

/// The fixed-size chunks of `content`, each of `eff` characters except a
/// shorter final one.
pub open spec fn chunks_of(content: Seq<char>, eff: nat) -> Seq<Seq<char>>
    decreases content.len(),
{
    if eff == 0 || content.len() <= eff {
        seq![content]
    } else {
        seq![content.subrange(0, eff as int)] + chunks_of(
            content.subrange(eff as int, content.len() as int),
            eff,
        )
    }
}

/// Trailing all-whitespace lines removed.
pub open spec fn drop_trailing_ws(lines: Seq<Seq<char>>) -> Seq<Seq<char>>
    decreases lines.len(),
{
    if lines.len() > 0 && all_ws(lines.last()) {
        drop_trailing_ws(lines.drop_last())
    } else {
        lines
    }
}

/// The wrapped chunks of a raw code line: empty input gives one empty
/// line; a line whose content fits in the width left after its indent and
/// the continuation marker passes through whole; otherwise the content
/// splits at fixed character boundaries, the first chunk keeps the
/// original indent, trailing all-whitespace chunks are dropped, and a
/// split that left nothing echoes the line back.
pub open spec fn code_wrap_lines(text: Seq<char>, width: nat) -> Seq<Seq<char>> {
    if text.len() == 0 {
        seq![Seq::<char>::empty()]
    } else {
        let indent = leading_ws_count(text);
        let content = text.subrange(indent as int, text.len() as int);
        if content.len() == 0 {
            seq![text]
        } else {
            let w1: nat = if width >= 4 {
                (width - 4) as nat
            } else {
                0
            };
            let eff: nat = if w1 >= indent {
                (w1 - indent) as nat
            } else {
                0
            };
            if eff == 0 || content.len() <= eff {
                seq![text]
            } else {
                let chunks = chunks_of(content, eff);
                let lines = Seq::new(
                    chunks.len(),
                    |k: int|
                        if k == 0 {
                            spaces(indent) + chunks[0]
                        } else {
                            chunks[k]
                        },
                );
                let kept = drop_trailing_ws(lines);
                if kept.len() == 0 {
                    seq![text]
                } else {
                    kept
                }
            }
        }
    }
}

/// Detect leading indentation and wrap the remaining content of a code
/// line at fixed character boundaries.
pub fn code_wrap(text: &str, width: usize) -> (r: (usize, Vec<String>))
    ensures
        r.0 as nat == leading_ws_count(text@),
        r.1.deep_view() == code_wrap_lines(text@, width as nat),
{
    let n = text.unicode_len();
    if n == 0 {
        let mut lines: Vec<String> = Vec::new();
        lines.push(String::new());
        proof {
            assert(lines.deep_view() =~= seq![Seq::<char>::empty()]);
        }
        return (0, lines);
    }
    // count leading whitespace
    proof {
        assert(text@.subrange(0, n as int) =~= text@);
    }
    let mut indent: usize = 0;
    let mut scan_done = false;
    while !scan_done
        invariant
            indent <= n,
            n as nat == text@.len(),
            leading_ws_count(text@) == indent as nat + leading_ws_count(
                text@.subrange(indent as int, n as int),
            ),
            scan_done ==> (indent == n || !is_space_char(text@[indent as int])),
        decreases n - indent + (if scan_done {
            0int
        } else {
            1int
        }),
    {
        if indent < n {
            let c = text.get_char(indent);
            if is_space(c) {
                proof {
                    let suf = text@.subrange(indent as int, n as int);
                    assert(suf[0] == text@[indent as int]);
                    assert(suf.drop_first() =~= text@.subrange(indent as int + 1, n as int));
                }
                indent = indent + 1;
            } else {
                scan_done = true;
            }
        } else {
            scan_done = true;
        }
    }
    proof {
        let suf = text@.subrange(indent as int, n as int);
        if indent < n {
            assert(suf[0] == text@[indent as int]);
            assert(leading_ws_count(suf) == 0);
        } else {
            assert(suf.len() == 0);
        }
        assert(leading_ws_count(text@) == indent as nat);
        lemma_leading_ws_le(text@);
    }
    let content = text.substring_char(indent, n);
    if content.is_empty() {
        let mut lines: Vec<String> = Vec::new();
        lines.push(String::from_str(text));
        proof {
            assert(lines.deep_view() =~= seq![text@]);
        }
        return (indent, lines);
    }
    let w1 = if width >= 4 {
        width - 4
    } else {
        0
    };
    let eff = if w1 >= indent {
        w1 - indent
    } else {
        0
    };
    let clen = content.unicode_len();
    if eff == 0 || clen <= eff {
        let mut lines: Vec<String> = Vec::new();
        lines.push(String::from_str(text));
        proof {
            assert(lines.deep_view() =~= seq![text@]);
        }
        return (indent, lines);
    }
    let ghost gcontent = content@;
    let ghost chunks = chunks_of(gcontent, eff as nat);
    let mut raw: Vec<String> = Vec::new();
    proof {
        assert(gcontent.subrange(0, clen as int) =~= gcontent);
        assert(raw.deep_view() =~= Seq::<Seq<char>>::empty());
        assert(raw.deep_view() + chunks =~= chunks);
    }
    let mut start: usize = 0;
    while start < clen
        invariant
            start <= clen,
            clen as nat == gcontent.len(),
            gcontent == content@,
            eff > 0,
            clen > eff,
            chunks == chunks_of(gcontent, eff as nat),
            start < clen ==> chunks =~= raw.deep_view() + chunks_of(
                gcontent.subrange(start as int, clen as int),
                eff as nat,
            ),
            start == clen ==> chunks =~= raw.deep_view(),
        decreases clen - start,
    {
        let end = if start <= clen - eff {
            start + eff
        } else {
            clen
        };
        let ghost suf = gcontent.subrange(start as int, clen as int);
        let piece = content.substring_char(start, end);
        raw.push(String::from_str(piece));
        proof {
            if end < clen {
                assert(suf.subrange(0, eff as int) =~= gcontent.subrange(
                    start as int,
                    start as int + eff as int,
                ));
                assert(suf.subrange(eff as int, suf.len() as int) =~= gcontent.subrange(
                    end as int,
                    clen as int,
                ));
            } else {
                assert(suf.len() <= eff as nat || suf.len() > eff as nat);
                if suf.len() > eff {
                    assert(end == clen);
                    assert(suf.subrange(0, eff as int) =~= gcontent.subrange(
                        start as int,
                        start as int + eff as int,
                    ));
                    assert(suf.subrange(eff as int, suf.len() as int) =~= gcontent.subrange(
                        start as int + eff as int,
                        clen as int,
                    ));
                    assert(start as int + eff as int == clen as int);
                    assert(gcontent.subrange(clen as int, clen as int).len() == 0);
                } else {
                    assert(chunks_of(suf, eff as nat) =~= seq![suf]);
                    assert(piece@ =~= suf);
                }
            }
            assert(chunks =~= raw.deep_view() + chunks_of(
                gcontent.subrange(end as int, clen as int),
                eff as nat,
            ) || end == clen);
        }
        start = end;
    }
    proof {
        assert(chunks =~= raw.deep_view());
    }
    // prefix the first chunk with the original indentation
    let ghost glines = Seq::new(
        chunks.len(),
        |k: int|
            if k == 0 {
                spaces(indent as nat) + chunks[0]
            } else {
                chunks[k]
            },
    );
    let mut lines: Vec<String> = Vec::new();
    let mut k: usize = 0;
    while k < raw.len()
        invariant
            k <= raw@.len(),
            raw.deep_view() == chunks,
            chunks.len() == raw@.len(),
            glines == Seq::new(
                chunks.len(),
                |k: int|
                    if k == 0 {
                        spaces(indent as nat) + chunks[0]
                    } else {
                        chunks[k]
                    },
            ),
            lines.deep_view() == glines.subrange(0, k as int),
        decreases raw@.len() - k,
    {
        if k == 0 {
            let mut first = space_string(indent);
            first.append(raw[0].as_str());
            let ghost fv = first@;
            proof {
                assert(lines.deep_view().len() == 0);
            }
            lines.push(first);
            proof {
                assert(raw.deep_view()[0] == raw@[0]@);
                assert(fv == spaces(indent as nat) + chunks[0]);
                assert(lines@.len() == 1);
                assert(lines.deep_view()[0] == lines@[0]@);
                assert(lines@[0]@ == fv);
                assert(glines.subrange(0, 1)[0] == glines[0]);
                assert(glines[0] == spaces(indent as nat) + chunks[0]);
                assert(lines.deep_view() =~= glines.subrange(0, 1));
            }
        } else {
            let ghost prev = lines.deep_view();
            lines.push(raw[k].clone());
            proof {
                assert(raw.deep_view()[k as int] == raw@[k as int]@);
                assert(lines.deep_view() =~= prev.push(chunks[k as int]));
                assert(glines.subrange(0, k as int + 1) =~= glines.subrange(0, k as int).push(
                    glines[k as int],
                ));
            }
        }
        k = k + 1;
    }
    proof {
        assert(glines.subrange(0, glines.len() as int) =~= glines);
    }
    // drop trailing all-whitespace lines
    let mut done = false;
    while !done
        invariant
            drop_trailing_ws(glines) == drop_trailing_ws(lines.deep_view()),
            done ==> lines.deep_view() == drop_trailing_ws(glines),
        decreases lines@.len() + (if done {
            0int
        } else {
            1int
        }),
    {
        if lines.len() == 0 {
            done = true;
            proof {
                assert(drop_trailing_ws(lines.deep_view()) =~= lines.deep_view());
            }
        } else {
            // check whether the last line is all whitespace
            let last = &lines[lines.len() - 1];
            let llen = last.as_str().unicode_len();
            let mut allws = true;
            let mut p: usize = 0;
            while p < llen
                invariant
                    p <= llen,
                    llen as nat == last@.len(),
                    allws == (forall|q: int| 0 <= q < p as int ==> is_space_char(#[trigger] last@[q])),
                decreases llen - p,
            {
                if !is_space(last.as_str().get_char(p)) {
                    allws = false;
                    proof {
                        assert(!is_space_char(last@[p as int]));
                    }
                }
                p = p + 1;
            }
            if allws {
                let ghost prev_dv = lines.deep_view();
                let _ = lines.pop();
                proof {
                    assert(all_ws(prev_dv.last()));
                    assert(lines.deep_view() =~= prev_dv.drop_last());
                }
            } else {
                done = true;
                proof {
                    assert(!all_ws(lines.deep_view().last()));
                    assert(drop_trailing_ws(lines.deep_view()) =~= lines.deep_view());
                }
            }
        }
    }
    if lines.len() == 0 {
        lines.push(String::from_str(text));
        proof {
            assert(lines.deep_view() =~= seq![text@]);
        }
    }
    (indent, lines)
}

} // verus!
