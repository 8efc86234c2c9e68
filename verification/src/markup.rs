//! Escaping of text embedded in HTML, XML, SVG and CSV reports.

use vstd::prelude::*;
use crate::text::{chars_of, decimal, expand, lemma_expand_step, push_char, push_decimal, push_str_of};

verus! {

/// The embedding a text is escaped for.
#[derive(Debug, Clone, Copy, PartialEq, Eq, Structural)]
pub enum Markup {
    /// HTML text and attribute values: `& < > " '`.
    Html,
    /// JUnit XML attribute values: `& < > " '` (the apostrophe as `&apos;`).
    JUnitXml,
    /// SVG text content: `& < > "`.
    SvgXml,
    /// A double-quoted CSV field: `"` doubled.
    Csv,
    /// A chart title made from a key: `_` becomes a space.
    Title,
}

/// The replacement of one character.
pub open spec fn markup_char(k: Markup, c: char) -> Seq<char> {
    match k {
        Markup::Html => if c == '&' {
            "&amp;"@
        } else if c == '<' {
            "&lt;"@
        } else if c == '>' {
            "&gt;"@
        } else if c == '"' {
            "&quot;"@
        } else if c == '\'' {
            "&#39;"@
        } else {
            seq![c]
        },
        Markup::JUnitXml => if c == '&' {
            "&amp;"@
        } else if c == '<' {
            "&lt;"@
        } else if c == '>' {
            "&gt;"@
        } else if c == '"' {
            "&quot;"@
        } else if c == '\'' {
            "&apos;"@
        } else {
            seq![c]
        },
        Markup::SvgXml => if c == '&' {
            "&amp;"@
        } else if c == '<' {
            "&lt;"@
        } else if c == '>' {
            "&gt;"@
        } else if c == '"' {
            "&quot;"@
        } else {
            seq![c]
        },
        Markup::Csv => if c == '"' {
            seq!['"', '"']
        } else {
            seq![c]
        },
        Markup::Title => if c == '_' {
            seq![' ']
        } else {
            seq![c]
        },
    }
}

/// `s` with each character replaced for embedding `k`.
pub open spec fn escaped_for(k: Markup, s: Seq<char>) -> Seq<char> {
    expand(s, |c: char| markup_char(k, c))
}

/// Appends the replacement of one character.
fn push_markup_char(out: &mut String, k: Markup, c: char)
    ensures
        final(out)@ == old(out)@ + markup_char(k, c),
{
    match k {
        Markup::Html => {
            if c == '&' {
                push_str_of(out, "&amp;");
            } else if c == '<' {
                push_str_of(out, "&lt;");
            } else if c == '>' {
                push_str_of(out, "&gt;");
            } else if c == '"' {
                push_str_of(out, "&quot;");
            } else if c == '\'' {
                push_str_of(out, "&#39;");
            } else {
                push_char(out, c);
            }
        },
        Markup::JUnitXml => {
            if c == '&' {
                push_str_of(out, "&amp;");
            } else if c == '<' {
                push_str_of(out, "&lt;");
            } else if c == '>' {
                push_str_of(out, "&gt;");
            } else if c == '"' {
                push_str_of(out, "&quot;");
            } else if c == '\'' {
                push_str_of(out, "&apos;");
            } else {
                push_char(out, c);
            }
        },
        Markup::SvgXml => {
            if c == '&' {
                push_str_of(out, "&amp;");
            } else if c == '<' {
                push_str_of(out, "&lt;");
            } else if c == '>' {
                push_str_of(out, "&gt;");
            } else if c == '"' {
                push_str_of(out, "&quot;");
            } else {
                push_char(out, c);
            }
        },
        Markup::Csv => {
            if c == '"' {
                push_char(out, '"');
                push_char(out, '"');
            } else {
                push_char(out, c);
            }
        },
        Markup::Title => {
            if c == '_' {
                push_char(out, ' ');
            } else {
                push_char(out, c);
            }
        },
    }
}

/// Appends `s` escaped for embedding `k`.
pub fn push_escaped(out: &mut String, k: Markup, s: &str)
    ensures
        final(out)@ == old(out)@ + escaped_for(k, s@),
{
    let v = chars_of(s);
    let ghost start = out@;
    let mut i: usize = 0;
    while i < v.len()
        invariant
            i <= v@.len(),
            v@ == s@,
            out@ == start + escaped_for(k, v@.take(i as int)),
        decreases v@.len() - i,
    {
        proof {
            lemma_expand_step(v@, i as int, |c: char| markup_char(k, c));
        }
        let ghost before = out@;
        push_markup_char(out, k, v[i]);
        assert(out@ =~= start + escaped_for(k, v@.take(i + 1)));
        i = i + 1;
    }
    assert(v@.take(v@.len() as int) =~= v@);
}

/// `s` escaped for embedding `k`.
pub fn escape_for(k: Markup, s: &str) -> (r: String)
    ensures
        r@ == escaped_for(k, s@),
{
    let mut out = String::new();
    push_escaped(&mut out, k, s);
    assert(out@ =~= escaped_for(k, s@));
    out
}

/// Escapes the five HTML-significant characters (`& < > " '`).
pub fn escape(s: &str) -> (r: String)
    ensures
        r@ == escaped_for(Markup::Html, s@),
{
    escape_for(Markup::Html, s)
}

/// Escapes the five XML-significant characters for a JUnit report.
pub fn xml_escape(s: &str) -> (r: String)
    ensures
        r@ == escaped_for(Markup::JUnitXml, s@),
{
    escape_for(Markup::JUnitXml, s)
}

/// Doubles each double quote, for a double-quoted CSV field.
pub fn csv_escape(s: &str) -> (r: String)
    ensures
        r@ == escaped_for(Markup::Csv, s@),
{
    escape_for(Markup::Csv, s)
}

/// Turns a chart key (`score_distribution`) into a title (`score distribution`).
pub fn chart_title(key: &str) -> (r: String)
    ensures
        r@ == escaped_for(Markup::Title, key@),
{
    escape_for(Markup::Title, key)
}

/// Escaped HTML holds none of the characters `< > " '`: interpolated text can
/// never open a tag or close an attribute.
pub proof fn html_escape_is_inert(s: Seq<char>)
    ensures
        forall|i: int| 0 <= i < escaped_for(Markup::Html, s).len() ==> {
            let c = #[trigger] escaped_for(Markup::Html, s)[i];
            c != '<' && c != '>' && c != '"' && c != '\''
        },
    decreases s.len(),
{
    reveal_strlit("&amp;");
    reveal_strlit("&lt;");
    reveal_strlit("&gt;");
    reveal_strlit("&quot;");
    reveal_strlit("&#39;");
    if s.len() > 0 {
        html_escape_is_inert(s.drop_first());
        let head = markup_char(Markup::Html, s[0]);
        let tail = escaped_for(Markup::Html, s.drop_first());
        assert(escaped_for(Markup::Html, s) == head + tail);
        assert forall|i: int| 0 <= i < (head + tail).len() implies {
            let c = #[trigger] (head + tail)[i];
            c != '<' && c != '>' && c != '"' && c != '\''
        } by {
            if i >= head.len() {
                assert((head + tail)[i] == tail[i - head.len()]);
            }
        }
    }
}

/// The script line that embeds chart `i` of an HTML report.
pub open spec fn chart_script_line(i: nat) -> Seq<char> {
    "  var spec"@ + decimal(i) + " = JSON.parse(document.getElementById('chart-"@ + decimal(i)
        + "-spec').textContent);\n  vegaEmbed('#chart-"@ + decimal(i) + "', spec"@ + decimal(i)
        + ", {actions: false}).catch(console.error);\n"@
}

/// The script lines of charts `0..n`.
pub open spec fn chart_script_lines(n: nat) -> Seq<char>
    decreases n,
{
    if n == 0 {
        Seq::empty()
    } else {
        chart_script_lines((n - 1) as nat) + chart_script_line((n - 1) as nat)
    }
}

/// The end of an HTML report: a script embedding the `n` charts, when there
/// are any, and the closing tags.
pub open spec fn html_footer_text(n: nat) -> Seq<char> {
    (if n > 0 {
        "<script>\n"@ + "document.addEventListener('DOMContentLoaded', function() {\n"@ + chart_script_lines(n) + "});\n"@
            + "</script>\n"@
    } else {
        Seq::empty()
    }) + "</div>\n</body>\n</html>\n"@
}

/// The end of an HTML report embedding `n` charts.
pub open spec fn footer_text_for(n: nat) -> Seq<char> {
    html_footer_text(n)
}

/// The end of an HTML report with `chart_count` embedded charts.
pub fn footer(chart_count: u64) -> (r: String)
    ensures
        r@ == html_footer_text(chart_count as nat),
{
    let mut b = String::new();
    if chart_count > 0 {
        push_str_of(&mut b, "<script>\n");
        push_str_of(&mut b, "document.addEventListener('DOMContentLoaded', function() {\n");
        let ghost head = b@;
        let mut i: u64 = 0;
        while i < chart_count
            invariant
                i <= chart_count,
                b@ == head + chart_script_lines(i as nat),
            decreases chart_count - i,
        {
            push_str_of(&mut b, "  var spec");
            push_decimal(&mut b, i);
            push_str_of(&mut b, " = JSON.parse(document.getElementById('chart-");
            push_decimal(&mut b, i);
            push_str_of(&mut b, "-spec').textContent);\n  vegaEmbed('#chart-");
            push_decimal(&mut b, i);
            push_str_of(&mut b, "', spec");
            push_decimal(&mut b, i);
            push_str_of(&mut b, ", {actions: false}).catch(console.error);\n");
            assert(b@ =~= head + chart_script_lines((i + 1) as nat));
            i = i + 1;
        }
        push_str_of(&mut b, "});\n");
        push_str_of(&mut b, "</script>\n");
    }
    push_str_of(&mut b, "</div>\n</body>\n</html>\n");
    assert(b@ =~= html_footer_text(chart_count as nat));
    b
}

} // verus!
