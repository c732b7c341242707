//! Styling capabilities: one method per semantic style, each mapping a
//! plain string to a styled string. Two interchangeable instances are
//! provided: an ANSI theme for terminals and a tag-emitting styler whose
//! output is easy to read in tests.

use vstd::prelude::*;
use crate::strutil::push_char;

verus! {

/// Trait for styling inline elements. Every method's result is pinned by
/// a spec function of the implementing styler, so rendered output can be
/// described exactly in contracts.
pub trait InlineStyler: Sized {
    spec fn text_spec(&self, t: Seq<char>) -> Seq<char>;

    spec fn bold_spec(&self, t: Seq<char>) -> Seq<char>;

    spec fn italic_spec(&self, t: Seq<char>) -> Seq<char>;

    spec fn bold_italic_spec(&self, t: Seq<char>) -> Seq<char>;

    spec fn strikethrough_spec(&self, t: Seq<char>) -> Seq<char>;

    spec fn underline_spec(&self, t: Seq<char>) -> Seq<char>;

    spec fn code_spec(&self, t: Seq<char>) -> Seq<char>;

    spec fn link_spec(&self, t: Seq<char>, url: Seq<char>) -> Seq<char>;

    spec fn image_spec(&self, alt: Seq<char>, url: Seq<char>) -> Seq<char>;

    spec fn footnote_spec(&self, t: Seq<char>) -> Seq<char>;

    fn text(&self, text: &str) -> (r: String)
        ensures
            r@ == self.text_spec(text@),
    ;

    fn bold(&self, text: &str) -> (r: String)
        ensures
            r@ == self.bold_spec(text@),
    ;

    fn italic(&self, text: &str) -> (r: String)
        ensures
            r@ == self.italic_spec(text@),
    ;

    fn bold_italic(&self, text: &str) -> (r: String)
        ensures
            r@ == self.bold_italic_spec(text@),
    ;

    fn strikethrough(&self, text: &str) -> (r: String)
        ensures
            r@ == self.strikethrough_spec(text@),
    ;

    fn underline(&self, text: &str) -> (r: String)
        ensures
            r@ == self.underline_spec(text@),
    ;

    fn code(&self, text: &str) -> (r: String)
        ensures
            r@ == self.code_spec(text@),
    ;

    fn link(&self, text: &str, url: &str) -> (r: String)
        ensures
            r@ == self.link_spec(text@, url@),
    ;

    fn image(&self, alt: &str, url: &str) -> (r: String)
        ensures
            r@ == self.image_spec(alt@, url@),
    ;

    fn footnote(&self, text: &str) -> (r: String)
        ensures
            r@ == self.footnote_spec(text@),
    ;
}

/// Styling capability for block-level construction: list markers, table
/// borders and headers, blockquote borders, horizontal rules, headings and
/// the auxiliary "think" region.
pub trait BlockStyler: InlineStyler {
    spec fn bullet_spec(&self, t: Seq<char>) -> Seq<char>;

    spec fn ordinal_spec(&self, t: Seq<char>) -> Seq<char>;

    spec fn table_border_spec(&self, t: Seq<char>) -> Seq<char>;

    spec fn table_header_spec(&self, t: Seq<char>) -> Seq<char>;

    spec fn quote_border_spec(&self, t: Seq<char>) -> Seq<char>;

    spec fn rule_spec(&self, t: Seq<char>) -> Seq<char>;

    spec fn think_border_spec(&self, t: Seq<char>) -> Seq<char>;

    spec fn think_body_spec(&self, t: Seq<char>) -> Seq<char>;

    spec fn heading_spec(&self, level: u8, t: Seq<char>) -> Seq<char>;

    fn bullet(&self, text: &str) -> (r: String)
        ensures
            r@ == self.bullet_spec(text@),
    ;

    fn ordinal(&self, text: &str) -> (r: String)
        ensures
            r@ == self.ordinal_spec(text@),
    ;

    fn table_border(&self, text: &str) -> (r: String)
        ensures
            r@ == self.table_border_spec(text@),
    ;

    fn table_header(&self, text: &str) -> (r: String)
        ensures
            r@ == self.table_header_spec(text@),
    ;

    fn quote_border(&self, text: &str) -> (r: String)
        ensures
            r@ == self.quote_border_spec(text@),
    ;

    fn rule(&self, text: &str) -> (r: String)
        ensures
            r@ == self.rule_spec(text@),
    ;

    fn think_border(&self, text: &str) -> (r: String)
        ensures
            r@ == self.think_border_spec(text@),
    ;

    fn think_body(&self, text: &str) -> (r: String)
        ensures
            r@ == self.think_body_spec(text@),
    ;

    fn heading(&self, level: u8, text: &str) -> (r: String)
        ensures
            r@ == self.heading_spec(level, text@),
    ;
}

/// Wrap `text` between two fixed pieces.
fn surround(open: &str, text: &str, close: &str) -> (r: String)
    ensures
        r@ == open@ + text@ + close@,
{
    let mut r = String::from_str(open);
    r.append(text);
    r.append(close);
    r
}

/// A test-friendly styler that brackets its input in readable tags.
pub struct TagStyler;

impl InlineStyler for TagStyler {
    open spec fn text_spec(&self, t: Seq<char>) -> Seq<char> {
        t
    }

    open spec fn bold_spec(&self, t: Seq<char>) -> Seq<char> {
        "<b>"@ + t + "</b>"@
    }

    open spec fn italic_spec(&self, t: Seq<char>) -> Seq<char> {
        "<i>"@ + t + "</i>"@
    }

    open spec fn bold_italic_spec(&self, t: Seq<char>) -> Seq<char> {
        "<b><i>"@ + t + "</i></b>"@
    }

    open spec fn strikethrough_spec(&self, t: Seq<char>) -> Seq<char> {
        "<s>"@ + t + "</s>"@
    }

    open spec fn underline_spec(&self, t: Seq<char>) -> Seq<char> {
        "<u>"@ + t + "</u>"@
    }

    open spec fn code_spec(&self, t: Seq<char>) -> Seq<char> {
        "<code>"@ + t + "</code>"@
    }

    open spec fn link_spec(&self, t: Seq<char>, url: Seq<char>) -> Seq<char> {
        "<a href=\""@ + url + "\">"@ + t + "</a>"@
    }

    open spec fn image_spec(&self, alt: Seq<char>, url: Seq<char>) -> Seq<char> {
        "<img alt=\""@ + alt + "\" src=\""@ + url + "\"/>"@
    }

    open spec fn footnote_spec(&self, t: Seq<char>) -> Seq<char> {
        "<footnote>"@ + t + "</footnote>"@
    }

    fn text(&self, text: &str) -> (r: String) {
        String::from_str(text)
    }

    fn bold(&self, text: &str) -> (r: String) {
        surround("<b>", text, "</b>")
    }

    fn italic(&self, text: &str) -> (r: String) {
        surround("<i>", text, "</i>")
    }

    fn bold_italic(&self, text: &str) -> (r: String) {
        surround("<b><i>", text, "</i></b>")
    }

    fn strikethrough(&self, text: &str) -> (r: String) {
        surround("<s>", text, "</s>")
    }

    fn underline(&self, text: &str) -> (r: String) {
        surround("<u>", text, "</u>")
    }

    fn code(&self, text: &str) -> (r: String) {
        surround("<code>", text, "</code>")
    }

    fn link(&self, text: &str, url: &str) -> (r: String) {
        let mut r = String::from_str("<a href=\"");
        r.append(url);
        r.append("\">");
        r.append(text);
        r.append("</a>");
        r
    }

    fn image(&self, alt: &str, url: &str) -> (r: String) {
        let mut r = String::from_str("<img alt=\"");
        r.append(alt);
        r.append("\" src=\"");
        r.append(url);
        r.append("\"/>");
        r
    }

    fn footnote(&self, text: &str) -> (r: String) {
        surround("<footnote>", text, "</footnote>")
    }
}

impl BlockStyler for TagStyler {
    open spec fn bullet_spec(&self, t: Seq<char>) -> Seq<char> {
        t
    }

    open spec fn ordinal_spec(&self, t: Seq<char>) -> Seq<char> {
        t
    }

    open spec fn table_border_spec(&self, t: Seq<char>) -> Seq<char> {
        t
    }

    open spec fn table_header_spec(&self, t: Seq<char>) -> Seq<char> {
        t
    }

    open spec fn quote_border_spec(&self, t: Seq<char>) -> Seq<char> {
        t
    }

    open spec fn rule_spec(&self, t: Seq<char>) -> Seq<char> {
        t
    }

    open spec fn think_border_spec(&self, t: Seq<char>) -> Seq<char> {
        t
    }

    open spec fn think_body_spec(&self, t: Seq<char>) -> Seq<char> {
        t
    }

    open spec fn heading_spec(&self, level: u8, t: Seq<char>) -> Seq<char> {
        t
    }

    fn bullet(&self, text: &str) -> (r: String) {
        String::from_str(text)
    }

    fn ordinal(&self, text: &str) -> (r: String) {
        String::from_str(text)
    }

    fn table_border(&self, text: &str) -> (r: String) {
        String::from_str(text)
    }

    fn table_header(&self, text: &str) -> (r: String) {
        String::from_str(text)
    }

    fn quote_border(&self, text: &str) -> (r: String) {
        String::from_str(text)
    }

    fn rule(&self, text: &str) -> (r: String) {
        String::from_str(text)
    }

    fn think_border(&self, text: &str) -> (r: String) {
        String::from_str(text)
    }

    fn think_body(&self, text: &str) -> (r: String) {
        String::from_str(text)
    }

    fn heading(&self, level: u8, text: &str) -> (r: String) {
        String::from_str(text)
    }
}

/// The default terminal theme: plain ANSI styles, a hyperlink escape for
/// links, and dim borders for tables, quotes and the auxiliary region.
pub struct AnsiStyler;

impl InlineStyler for AnsiStyler {
    open spec fn text_spec(&self, t: Seq<char>) -> Seq<char> {
        t
    }

    open spec fn bold_spec(&self, t: Seq<char>) -> Seq<char> {
        "\x1b[1m"@ + t + "\x1b[0m"@
    }

    open spec fn italic_spec(&self, t: Seq<char>) -> Seq<char> {
        "\x1b[3m"@ + t + "\x1b[0m"@
    }

    open spec fn bold_italic_spec(&self, t: Seq<char>) -> Seq<char> {
        "\x1b[1;3m"@ + t + "\x1b[0m"@
    }

    open spec fn strikethrough_spec(&self, t: Seq<char>) -> Seq<char> {
        "\x1b[9m"@ + t + "\x1b[0m"@
    }

    open spec fn underline_spec(&self, t: Seq<char>) -> Seq<char> {
        "\x1b[4m"@ + t + "\x1b[24m"@
    }

    open spec fn code_spec(&self, t: Seq<char>) -> Seq<char> {
        "\x1b[2m"@ + t + "\x1b[22m"@
    }

    open spec fn link_spec(&self, t: Seq<char>, url: Seq<char>) -> Seq<char> {
        "\x1b]8;;"@ + url + "\x1b\\"@ + "\x1b[4;34m"@ + t + "\x1b[0m"@ + "\x1b]8;;\x1b\\"@ + " "@
            + "\x1b[2m"@ + "("@ + url + ")"@ + "\x1b[0m"@
    }

    open spec fn image_spec(&self, alt: Seq<char>, url: Seq<char>) -> Seq<char> {
        "[\u{1f5bc} "@ + alt + "]"@
    }

    open spec fn footnote_spec(&self, t: Seq<char>) -> Seq<char> {
        t
    }

    fn text(&self, text: &str) -> (r: String) {
        String::from_str(text)
    }

    fn bold(&self, text: &str) -> (r: String) {
        surround("\x1b[1m", text, "\x1b[0m")
    }

    fn italic(&self, text: &str) -> (r: String) {
        surround("\x1b[3m", text, "\x1b[0m")
    }

    fn bold_italic(&self, text: &str) -> (r: String) {
        surround("\x1b[1;3m", text, "\x1b[0m")
    }

    fn strikethrough(&self, text: &str) -> (r: String) {
        surround("\x1b[9m", text, "\x1b[0m")
    }

    fn underline(&self, text: &str) -> (r: String) {
        surround("\x1b[4m", text, "\x1b[24m")
    }

    fn code(&self, text: &str) -> (r: String) {
        surround("\x1b[2m", text, "\x1b[22m")
    }

    fn link(&self, text: &str, url: &str) -> (r: String) {
        let mut r = String::from_str("\x1b]8;;");
        r.append(url);
        r.append("\x1b\\");
        r.append("\x1b[4;34m");
        r.append(text);
        r.append("\x1b[0m");
        r.append("\x1b]8;;\x1b\\");
        r.append(" ");
        r.append("\x1b[2m");
        r.append("(");
        r.append(url);
        r.append(")");
        r.append("\x1b[0m");
        r
    }

    fn image(&self, alt: &str, url: &str) -> (r: String) {
        let mut r = String::from_str("[\u{1f5bc} ");
        r.append(alt);
        r.append("]");
        r
    }

    fn footnote(&self, text: &str) -> (r: String) {
        String::from_str(text)
    }
}

impl BlockStyler for AnsiStyler {
    open spec fn bullet_spec(&self, t: Seq<char>) -> Seq<char> {
        "\x1b[36m"@ + t + "\x1b[0m"@
    }

    open spec fn ordinal_spec(&self, t: Seq<char>) -> Seq<char> {
        "\x1b[36m"@ + t + "\x1b[0m"@
    }

    open spec fn table_border_spec(&self, t: Seq<char>) -> Seq<char> {
        "\x1b[2m"@ + t + "\x1b[0m"@
    }

    open spec fn table_header_spec(&self, t: Seq<char>) -> Seq<char> {
        "\x1b[1m"@ + t + "\x1b[0m"@
    }

    open spec fn quote_border_spec(&self, t: Seq<char>) -> Seq<char> {
        "\x1b[34m"@ + t + "\x1b[0m"@
    }

    open spec fn rule_spec(&self, t: Seq<char>) -> Seq<char> {
        "\x1b[2m"@ + t + "\x1b[0m"@
    }

    open spec fn think_border_spec(&self, t: Seq<char>) -> Seq<char> {
        "\x1b[2m"@ + t + "\x1b[0m"@
    }

    open spec fn think_body_spec(&self, t: Seq<char>) -> Seq<char> {
        "\x1b[2;3m"@ + t + "\x1b[0m"@
    }

    open spec fn heading_spec(&self, level: u8, t: Seq<char>) -> Seq<char> {
        "\x1b[1;4m"@ + t + "\x1b[0m"@
    }

    fn bullet(&self, text: &str) -> (r: String) {
        surround("\x1b[36m", text, "\x1b[0m")
    }

    fn ordinal(&self, text: &str) -> (r: String) {
        surround("\x1b[36m", text, "\x1b[0m")
    }

    fn table_border(&self, text: &str) -> (r: String) {
        surround("\x1b[2m", text, "\x1b[0m")
    }

    fn table_header(&self, text: &str) -> (r: String) {
        surround("\x1b[1m", text, "\x1b[0m")
    }

    fn quote_border(&self, text: &str) -> (r: String) {
        surround("\x1b[34m", text, "\x1b[0m")
    }

    fn rule(&self, text: &str) -> (r: String) {
        surround("\x1b[2m", text, "\x1b[0m")
    }

    fn think_border(&self, text: &str) -> (r: String) {
        surround("\x1b[2m", text, "\x1b[0m")
    }

    fn think_body(&self, text: &str) -> (r: String) {
        surround("\x1b[2;3m", text, "\x1b[0m")
    }

    fn heading(&self, level: u8, text: &str) -> (r: String) {
        surround("\x1b[1;4m", text, "\x1b[0m")
    }
}

} // verus!
