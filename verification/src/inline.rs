//! Inline content rendering: the outside inline parser's elements are
//! decoded and styled through a styling capability.

use vstd::prelude::*;
use streamdown_parser::InlineElement;
use crate::style::InlineStyler;

verus! {

/// One parsed inline element, at specification level.
pub ghost enum InlineTok {
    Text(Seq<char>),
    Bold(Seq<char>),
    Italic(Seq<char>),
    BoldItalic(Seq<char>),
    Underline(Seq<char>),
    Strikeout(Seq<char>),
    Code(Seq<char>),
    Link { label: Seq<char>, url: Seq<char> },
    Image { alt: Seq<char>, url: Seq<char> },
    Footnote(Seq<char>),
}

/// One parsed inline element.
pub enum InlinePiece {
    Text(String),
    Bold(String),
    Italic(String),
    BoldItalic(String),
    Underline(String),
    Strikeout(String),
    Code(String),
    Link { label: String, url: String },
    Image { alt: String, url: String },
    Footnote(String),
}

impl View for InlinePiece {
    type V = InlineTok;

    open spec fn view(&self) -> InlineTok {
        match self {
            InlinePiece::Text(t) => InlineTok::Text(t@),
            InlinePiece::Bold(t) => InlineTok::Bold(t@),
            InlinePiece::Italic(t) => InlineTok::Italic(t@),
            InlinePiece::BoldItalic(t) => InlineTok::BoldItalic(t@),
            InlinePiece::Underline(t) => InlineTok::Underline(t@),
            InlinePiece::Strikeout(t) => InlineTok::Strikeout(t@),
            InlinePiece::Code(t) => InlineTok::Code(t@),
            InlinePiece::Link { label, url } => InlineTok::Link { label: label@, url: url@ },
            InlinePiece::Image { alt, url } => InlineTok::Image { alt: alt@, url: url@ },
            InlinePiece::Footnote(t) => InlineTok::Footnote(t@),
        }
    }
}

impl DeepView for InlinePiece {
    type V = InlineTok;

    open spec fn deep_view(&self) -> InlineTok {
        self.view()
    }
}

/// What the outside inline parser makes of a string. The full grammar is
/// the parser's own; this name only fixes that equal inputs parse equally.
pub uninterp spec fn parsed_inline(s: Seq<char>) -> Seq<InlineTok>;

/// Relies on streamdown_parser::InlineParser::parse, called on a fresh
/// parser, whose result is a function of the line alone; the elements come
/// back converted variant for variant.
#[verifier::external_body]
fn parse_inline(line: &str) -> (r: Vec<InlinePiece>)
    ensures
        r.deep_view() == parsed_inline(line@),
{
    let mut parser = streamdown_parser::InlineParser::new();
    parser.parse(line).into_iter().map(|e| match e {
        InlineElement::Text(t) => InlinePiece::Text(t),
        InlineElement::Bold(t) => InlinePiece::Bold(t),
        InlineElement::Italic(t) => InlinePiece::Italic(t),
        InlineElement::BoldItalic(t) => InlinePiece::BoldItalic(t),
        InlineElement::Underline(t) => InlinePiece::Underline(t),
        InlineElement::Strikeout(t) => InlinePiece::Strikeout(t),
        InlineElement::Code(t) => InlinePiece::Code(t),
        InlineElement::Link { text, url } => InlinePiece::Link { label: text, url },
        InlineElement::Image { alt, url } => InlinePiece::Image { alt, url },
        InlineElement::Footnote(t) => InlinePiece::Footnote(t),
    }).collect()
}

/// Relies on streamdown_parser::decode_html_entities: entity replacement
/// leaves a string without an ampersand unchanged.
#[verifier::external_body]
pub fn decode_entities(text: &str) -> (r: String)
    ensures
        no_entity_start(text@) ==> r@ == text@,
{
    streamdown_parser::decode_html_entities(text)
}

/// A string without an ampersand holds no entity to decode.
pub open spec fn no_entity_start(s: Seq<char>) -> bool {
    forall|i: int| 0 <= i < s.len() ==> #[trigger] s[i] != '&'
}

/// How one decoded element relates to its parsed original: entity decoding
/// touches the text of textual and emphasised elements and a link's label;
/// code, footnotes, image fields and a link's address pass through. A
/// field without an ampersand is unchanged.
pub open spec fn piece_decoded(p: InlineTok, q: InlineTok) -> bool {
    match p {
        InlineTok::Text(t) => q is Text && (no_entity_start(t) ==> q == InlineTok::Text(t)),
        InlineTok::Bold(t) => q is Bold && (no_entity_start(t) ==> q == InlineTok::Bold(t)),
        InlineTok::Italic(t) => q is Italic && (no_entity_start(t) ==> q == InlineTok::Italic(t)),
        InlineTok::BoldItalic(t) => q is BoldItalic && (no_entity_start(t) ==> q
            == InlineTok::BoldItalic(t)),
        InlineTok::Underline(t) => q is Underline && (no_entity_start(t) ==> q
            == InlineTok::Underline(t)),
        InlineTok::Strikeout(t) => q is Strikeout && (no_entity_start(t) ==> q
            == InlineTok::Strikeout(t)),
        InlineTok::Code(t) => q == InlineTok::Code(t),
        InlineTok::Link { label, url } => q is Link && q->Link_url == url && (no_entity_start(
            label,
        ) ==> q == InlineTok::Link { label, url }),
        InlineTok::Image { alt, url } => q == InlineTok::Image { alt, url },
        InlineTok::Footnote(t) => q == InlineTok::Footnote(t),
    }
}

pub open spec fn pieces_decoded(ps: Seq<InlineTok>, qs: Seq<InlineTok>) -> bool {
    &&& ps.len() == qs.len()
    &&& forall|i: int| 0 <= i < ps.len() ==> piece_decoded(ps[i], #[trigger] qs[i])
}

/// Decode HTML entities in the fields that inline rendering decodes.
fn decode_piece(p: &InlinePiece) -> (r: InlinePiece)
    ensures
        piece_decoded(p@, r@),
{
    match p {
        InlinePiece::Text(t) => InlinePiece::Text(decode_entities(t.as_str())),
        InlinePiece::Bold(t) => InlinePiece::Bold(decode_entities(t.as_str())),
        InlinePiece::Italic(t) => InlinePiece::Italic(decode_entities(t.as_str())),
        InlinePiece::BoldItalic(t) => InlinePiece::BoldItalic(decode_entities(t.as_str())),
        InlinePiece::Underline(t) => InlinePiece::Underline(decode_entities(t.as_str())),
        InlinePiece::Strikeout(t) => InlinePiece::Strikeout(decode_entities(t.as_str())),
        InlinePiece::Code(t) => InlinePiece::Code(t.clone()),
        InlinePiece::Link { label, url } => InlinePiece::Link {
            label: decode_entities(label.as_str()),
            url: url.clone(),
        },
        InlinePiece::Image { alt, url } => InlinePiece::Image {
            alt: alt.clone(),
            url: url.clone(),
        },
        InlinePiece::Footnote(t) => InlinePiece::Footnote(t.clone()),
    }
}

/// The styled form of one decoded element.
pub open spec fn styled_piece<S: InlineStyler>(styler: &S, p: InlineTok) -> Seq<char> {
    match p {
        InlineTok::Text(t) => styler.text_spec(t),
        InlineTok::Bold(t) => styler.bold_spec(t),
        InlineTok::Italic(t) => styler.italic_spec(t),
        InlineTok::BoldItalic(t) => styler.bold_italic_spec(t),
        InlineTok::Underline(t) => styler.underline_spec(t),
        InlineTok::Strikeout(t) => styler.strikethrough_spec(t),
        InlineTok::Code(t) => styler.code_spec(t),
        InlineTok::Link { label, url } => styler.link_spec(label, url),
        InlineTok::Image { alt, url } => styler.image_spec(alt, url),
        InlineTok::Footnote(t) => styler.footnote_spec(t),
    }
}

/// The styled forms of a run of elements, concatenated in stream order.
pub open spec fn rendered_pieces<S: InlineStyler>(styler: &S, ps: Seq<InlineTok>) -> Seq<char> {
    ps.fold_left(Seq::<char>::empty(), |acc: Seq<char>, p: InlineTok| acc + styled_piece(styler, p))
}

proof fn lemma_rendered_pieces_push<S: InlineStyler>(styler: &S, ps: Seq<InlineTok>, p: InlineTok)
    ensures
        rendered_pieces(styler, ps.push(p)) == rendered_pieces(styler, ps) + styled_piece(
            styler,
            p,
        ),
{
    reveal_with_fuel(Seq::fold_left, 2);
    assert(ps.push(p).drop_last() =~= ps);
    assert(ps.push(p).last() == p);
}

/// Style a run of decoded elements and concatenate the results.
pub fn render_pieces<S: InlineStyler>(styler: &S, pieces: &Vec<InlinePiece>) -> (r: String)
    ensures
        r@ == rendered_pieces(styler, pieces.deep_view()),
{
    let mut out = String::new();
    let mut i: usize = 0;
    while i < pieces.len()
        invariant
            i <= pieces@.len(),
            out@ == rendered_pieces(styler, pieces.deep_view().subrange(0, i as int)),
        decreases pieces@.len() - i,
    {
        let ghost pre = pieces.deep_view().subrange(0, i as int);
        proof {
            assert(pieces.deep_view().subrange(0, i as int + 1) =~= pre.push(
                pieces.deep_view()[i as int],
            ));
            lemma_rendered_pieces_push(styler, pre, pieces.deep_view()[i as int]);
        }
        let piece = &pieces[i];
        let styled = match piece {
            InlinePiece::Text(t) => styler.text(t.as_str()),
            InlinePiece::Bold(t) => styler.bold(t.as_str()),
            InlinePiece::Italic(t) => styler.italic(t.as_str()),
            InlinePiece::BoldItalic(t) => styler.bold_italic(t.as_str()),
            InlinePiece::Underline(t) => styler.underline(t.as_str()),
            InlinePiece::Strikeout(t) => styler.strikethrough(t.as_str()),
            InlinePiece::Code(t) => styler.code(t.as_str()),
            InlinePiece::Link { label, url } => styler.link(label.as_str(), url.as_str()),
            InlinePiece::Image { alt, url } => styler.image(alt.as_str(), url.as_str()),
            InlinePiece::Footnote(t) => styler.footnote(t.as_str()),
        };
        out.append(styled.as_str());
        i = i + 1;
    }
    proof {
        assert(pieces.deep_view().subrange(0, pieces@.len() as int) =~= pieces.deep_view());
    }
    out
}

/// Parse `content` with the outside inline parser, decode entities where
/// inline rendering decodes them, style every element with `styler`, and
/// concatenate the results in stream order.
pub fn render_inline_content<S: InlineStyler>(content: &str, styler: &S) -> (r: String)
    ensures
        exists|dec: Seq<InlineTok>|
            pieces_decoded(parsed_inline(content@), dec) && r@ == rendered_pieces(styler, dec),
{
    let parsed = parse_inline(content);
    let ghost orig = parsed.deep_view();
    let mut decoded: Vec<InlinePiece> = Vec::new();
    let mut i: usize = 0;
    while i < parsed.len()
        invariant
            i <= parsed@.len(),
            parsed.deep_view() == orig,
            orig.len() == parsed@.len(),
            decoded@.len() == i as nat,
            forall|k: int| 0 <= k < i as int ==> piece_decoded(orig[k], (#[trigger] decoded@[k])@),
        decreases parsed@.len() - i,
    {
        let piece = decode_piece(&parsed[i]);
        proof {
            assert(orig[i as int] == parsed@[i as int]@);
        }
        decoded.push(piece);
        i = i + 1;
    }
    proof {
        assert(pieces_decoded(orig, decoded.deep_view())) by {
            assert(decoded.deep_view().len() == orig.len());
            assert forall|k: int| 0 <= k < orig.len() implies piece_decoded(
                orig[k],
                #[trigger] decoded.deep_view()[k],
            ) by {
                assert(decoded.deep_view()[k] == decoded@[k]@);
            }
        }
    }
    render_pieces(styler, &decoded)
}

} // verus!
