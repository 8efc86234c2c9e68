//! SVG chart building blocks: the document builder, element markup, the
//! series palette and render options.

use vstd::prelude::*;
use crate::markup::{Markup, escape_for, escaped_for, push_escaped};
use crate::text::{decimal, push_decimal, push_str_of};

verus! {

/// Render configuration: chart width and height in pixels.
#[derive(Debug, Clone, Copy, PartialEq, Eq)]
pub struct RenderConfig {
    pub width: usize,
    pub height: usize,
}

impl Default for RenderConfig {
    /// 600 by 400 pixels.
    fn default() -> (c: Self)
        ensures
            c.width == 600,
            c.height == 400,
    {
        RenderConfig { width: 600, height: 400 }
    }
}

/// A configuration option for chart rendering.
#[derive(Debug, Clone, Copy, PartialEq, Eq)]
pub struct RenderOption {
    width: usize,
    height: usize,
}

impl RenderOption {
    pub closed spec fn size(&self) -> (usize, usize) {
        (self.width, self.height)
    }
}

/// An option that sets the chart dimensions.
pub fn with_size(w: usize, h: usize) -> (o: RenderOption)
    ensures
        o.size() == (w, h),
{
    RenderOption { width: w, height: h }
}

/// The configuration after applying `opts` in order to the default: the last
/// size option wins.
pub open spec fn configured(opts: Seq<RenderOption>) -> (usize, usize)
    decreases opts.len(),
{
    if opts.len() == 0 {
        (600, 400)
    } else {
        opts.last().size()
    }
}

/// Applies render options in order to the default configuration.
pub fn apply_options(opts: &Vec<RenderOption>) -> (c: RenderConfig)
    ensures
        (c.width, c.height) == configured(opts@),
{
    let mut cfg = RenderConfig::default();
    let mut i: usize = 0;
    while i < opts.len()
        invariant
            i <= opts@.len(),
            (cfg.width, cfg.height) == configured(opts@.take(i as int)),
        decreases opts@.len() - i,
    {
        cfg.width = opts[i].width;
        cfg.height = opts[i].height;
        assert(opts@.take(i + 1).last() == opts@[i as int]);
        i = i + 1;
    }
    assert(opts@.take(opts@.len() as int) =~= opts@);
    cfg
}

/// The series palette.
pub open spec fn palette() -> Seq<Seq<char>> {
    seq!["#4285F4"@, "#EA4335"@, "#34A853"@, "#FBBC05"@, "#9C27B0"@, "#FF6D00"@, "#00BCD4"@, "#795548"@]
}

/// The color of series `i`, cycling through the eight palette colors.
pub fn color_at(i: usize) -> (c: &'static str)
    ensures
        c@ == palette()[(i % 8) as int],
{
    let k = i % 8;
    if k == 0 {
        "#4285F4"
    } else if k == 1 {
        "#EA4335"
    } else if k == 2 {
        "#34A853"
    } else if k == 3 {
        "#FBBC05"
    } else if k == 4 {
        "#9C27B0"
    } else if k == 5 {
        "#FF6D00"
    } else if k == 6 {
        "#00BCD4"
    } else {
        "#795548"
    }
}

/// An SVG document under construction: its size and its elements, in order.
#[derive(Debug, Clone, PartialEq, Eq)]
pub struct Svg {
    width: usize,
    height: usize,
    elements: Vec<String>,
}

/// The elements, each followed by a newline.
pub open spec fn element_lines(els: Seq<Seq<char>>) -> Seq<char>
    decreases els.len(),
{
    if els.len() == 0 {
        Seq::empty()
    } else {
        element_lines(els.drop_last()) + els.last() + seq!['\n']
    }
}

/// The text of an SVG document: the root element, a white background and the
/// elements, one per line.
pub open spec fn svg_document(w: nat, h: nat, els: Seq<Seq<char>>) -> Seq<char> {
    "<svg xmlns=\"http://www.w3.org/2000/svg\" width=\""@ + decimal(w) + "\" height=\""@ + decimal(h)
        + "\" viewBox=\"0 0 "@ + decimal(w) + " "@ + decimal(h) + "\">"@ + seq!['\n'] + "<rect width=\""@
        + decimal(w) + "\" height=\""@ + decimal(h) + "\" fill=\"white\"/>"@ + seq!['\n'] + element_lines(els)
        + "</svg>"@
}

impl Svg {
    pub closed spec fn width_value(&self) -> nat {
        self.width as nat
    }

    pub closed spec fn height_value(&self) -> nat {
        self.height as nat
    }

    /// The elements added so far, in order.
    pub closed spec fn element_values(&self) -> Seq<Seq<char>> {
        self.elements@.map_values(|e: String| e@)
    }

    /// An empty document of the given size.
    pub fn new(w: usize, h: usize) -> (s: Self)
        ensures
            s.width_value() == w,
            s.height_value() == h,
            s.element_values() == Seq::<Seq<char>>::empty(),
    {
        let s = Svg { width: w, height: h, elements: Vec::new() };
        assert(s.element_values() =~= Seq::<Seq<char>>::empty());
        s
    }

    /// Appends an element.
    pub fn push(&mut self, element: String)
        ensures
            final(self).width_value() == old(self).width_value(),
            final(self).height_value() == old(self).height_value(),
            final(self).element_values() == old(self).element_values().push(element@),
    {
        let ghost before = self.element_values();
        self.elements.push(element);
        assert(self.element_values() =~= before.push(element@));
    }

    /// The document text.
    pub fn render(&self) -> (r: String)
        ensures
            r@ == svg_document(self.width_value(), self.height_value(), self.element_values()),
    {
        let mut out = String::new();
        push_str_of(&mut out, "<svg xmlns=\"http://www.w3.org/2000/svg\" width=\"");
        push_decimal(&mut out, self.width as u64);
        push_str_of(&mut out, "\" height=\"");
        push_decimal(&mut out, self.height as u64);
        push_str_of(&mut out, "\" viewBox=\"0 0 ");
        push_decimal(&mut out, self.width as u64);
        push_str_of(&mut out, " ");
        push_decimal(&mut out, self.height as u64);
        push_str_of(&mut out, "\">");
        crate::text::push_char(&mut out, '\n');
        push_str_of(&mut out, "<rect width=\"");
        push_decimal(&mut out, self.width as u64);
        push_str_of(&mut out, "\" height=\"");
        push_decimal(&mut out, self.height as u64);
        push_str_of(&mut out, "\" fill=\"white\"/>");
        crate::text::push_char(&mut out, '\n');
        let ghost head = out@;
        let ghost els = self.element_values();
        let mut i: usize = 0;
        while i < self.elements.len()
            invariant
                i <= self.elements@.len(),
                els == self.element_values(),
                els.len() == self.elements@.len(),
                out@ == head + element_lines(els.take(i as int)),
            decreases self.elements@.len() - i,
        {
            push_str_of(&mut out, self.elements[i].as_str());
            crate::text::push_char(&mut out, '\n');
            assert(els.take(i + 1).drop_last() =~= els.take(i as int));
            assert(els[i as int] == self.elements@[i as int]@);
            assert(out@ =~= head + element_lines(els.take(i + 1)));
            i = i + 1;
        }
        assert(els.take(els.len() as int) =~= els);
        push_str_of(&mut out, "</svg>");
        assert(out@ =~= svg_document(self.width_value(), self.height_value(), els));
        out
    }
}

/// Escapes the XML-significant characters of SVG text content (`& < > "`).
pub fn xml_escape(s: &str) -> (r: String)
    ensures
        r@ == escaped_for(Markup::SvgXml, s@),
{
    escape_for(Markup::SvgXml, s)
}

/// Appends ` attrs` when `attrs` is not empty.
pub open spec fn with_attrs(attrs: Seq<char>) -> Seq<char> {
    if attrs.len() == 0 {
        Seq::empty()
    } else {
        seq![' '] + attrs
    }
}

fn push_attrs(out: &mut String, attrs: &str)
    ensures
        final(out)@ == old(out)@ + with_attrs(attrs@),
{
    if !attrs.is_empty() {
        crate::text::push_char(out, ' ');
        push_str_of(out, attrs);
    } else {
        assert(old(out)@ + with_attrs(attrs@) =~= old(out)@);
    }
}

/// A `<text>` element at formatted coordinates `x`, `y`, whose content is
/// escaped for SVG.
pub open spec fn text_markup(x: Seq<char>, y: Seq<char>, content: Seq<char>, fill: Seq<char>, font_size: nat, attrs: Seq<char>) -> Seq<char> {
    "<text x=\""@ + x + "\" y=\""@ + y + "\" fill=\""@ + fill + "\" font-size=\""@ + decimal(font_size) + "\""@
        + with_attrs(attrs) + ">"@ + escaped_for(Markup::SvgXml, content) + "</text>"@
}

/// Builds a `<text>` element; the coordinates come formatted.
pub fn text_element(x: &str, y: &str, content: &str, fill: &str, font_size: usize, attrs: &str) -> (r: String)
    ensures
        r@ == text_markup(x@, y@, content@, fill@, font_size as nat, attrs@),
{
    let mut s = String::new();
    push_str_of(&mut s, "<text x=\"");
    push_str_of(&mut s, x);
    push_str_of(&mut s, "\" y=\"");
    push_str_of(&mut s, y);
    push_str_of(&mut s, "\" fill=\"");
    push_str_of(&mut s, fill);
    push_str_of(&mut s, "\" font-size=\"");
    push_decimal(&mut s, font_size as u64);
    push_str_of(&mut s, "\"");
    push_attrs(&mut s, attrs);
    push_str_of(&mut s, ">");
    push_escaped(&mut s, Markup::SvgXml, content);
    push_str_of(&mut s, "</text>");
    assert(s@ =~= text_markup(x@, y@, content@, fill@, font_size as nat, attrs@));
    s
}

/// A `<rect>` element at formatted position and size.
pub open spec fn rect_markup(x: Seq<char>, y: Seq<char>, w: Seq<char>, h: Seq<char>, fill: Seq<char>, attrs: Seq<char>) -> Seq<char> {
    "<rect x=\""@ + x + "\" y=\""@ + y + "\" width=\""@ + w + "\" height=\""@ + h + "\" fill=\""@ + fill + "\""@
        + with_attrs(attrs) + "/>"@
}

/// Builds a `<rect>` element; the numbers come formatted.
pub fn rect_element(x: &str, y: &str, w: &str, h: &str, fill: &str, attrs: &str) -> (r: String)
    ensures
        r@ == rect_markup(x@, y@, w@, h@, fill@, attrs@),
{
    let mut s = String::new();
    push_str_of(&mut s, "<rect x=\"");
    push_str_of(&mut s, x);
    push_str_of(&mut s, "\" y=\"");
    push_str_of(&mut s, y);
    push_str_of(&mut s, "\" width=\"");
    push_str_of(&mut s, w);
    push_str_of(&mut s, "\" height=\"");
    push_str_of(&mut s, h);
    push_str_of(&mut s, "\" fill=\"");
    push_str_of(&mut s, fill);
    push_str_of(&mut s, "\"");
    push_attrs(&mut s, attrs);
    push_str_of(&mut s, "/>");
    assert(s@ =~= rect_markup(x@, y@, w@, h@, fill@, attrs@));
    s
}

/// A `<line>` element between formatted points.
pub open spec fn line_markup(x1: Seq<char>, y1: Seq<char>, x2: Seq<char>, y2: Seq<char>, stroke: Seq<char>, stroke_width: Seq<char>, attrs: Seq<char>) -> Seq<char> {
    "<line x1=\""@ + x1 + "\" y1=\""@ + y1 + "\" x2=\""@ + x2 + "\" y2=\""@ + y2 + "\" stroke=\""@ + stroke
        + "\" stroke-width=\""@ + stroke_width + "\""@ + with_attrs(attrs) + "/>"@
}

/// Builds a `<line>` element; the numbers come formatted.
pub fn line_element(x1: &str, y1: &str, x2: &str, y2: &str, stroke: &str, stroke_width: &str, attrs: &str) -> (r: String)
    ensures
        r@ == line_markup(x1@, y1@, x2@, y2@, stroke@, stroke_width@, attrs@),
{
    let mut s = String::new();
    push_str_of(&mut s, "<line x1=\"");
    push_str_of(&mut s, x1);
    push_str_of(&mut s, "\" y1=\"");
    push_str_of(&mut s, y1);
    push_str_of(&mut s, "\" x2=\"");
    push_str_of(&mut s, x2);
    push_str_of(&mut s, "\" y2=\"");
    push_str_of(&mut s, y2);
    push_str_of(&mut s, "\" stroke=\"");
    push_str_of(&mut s, stroke);
    push_str_of(&mut s, "\" stroke-width=\"");
    push_str_of(&mut s, stroke_width);
    push_str_of(&mut s, "\"");
    push_attrs(&mut s, attrs);
    push_str_of(&mut s, "/>");
    assert(s@ =~= line_markup(x1@, y1@, x2@, y2@, stroke@, stroke_width@, attrs@));
    s
}

/// A `<circle>` element at a formatted center and radius.
pub open spec fn circle_markup(cx: Seq<char>, cy: Seq<char>, r: Seq<char>, fill: Seq<char>, attrs: Seq<char>) -> Seq<char> {
    "<circle cx=\""@ + cx + "\" cy=\""@ + cy + "\" r=\""@ + r + "\" fill=\""@ + fill + "\""@ + with_attrs(attrs) + "/>"@
}

/// Builds a `<circle>` element; the numbers come formatted.
pub fn circle_element(cx: &str, cy: &str, radius: &str, fill: &str, attrs: &str) -> (r: String)
    ensures
        r@ == circle_markup(cx@, cy@, radius@, fill@, attrs@),
{
    let mut s = String::new();
    push_str_of(&mut s, "<circle cx=\"");
    push_str_of(&mut s, cx);
    push_str_of(&mut s, "\" cy=\"");
    push_str_of(&mut s, cy);
    push_str_of(&mut s, "\" r=\"");
    push_str_of(&mut s, radius);
    push_str_of(&mut s, "\" fill=\"");
    push_str_of(&mut s, fill);
    push_str_of(&mut s, "\"");
    push_attrs(&mut s, attrs);
    push_str_of(&mut s, "/>");
    assert(s@ =~= circle_markup(cx@, cy@, radius@, fill@, attrs@));
    s
}

/// A `<polyline>` element through formatted points (`x,y` pairs joined by spaces).
pub open spec fn polyline_markup(points: Seq<char>, stroke: Seq<char>, stroke_width: Seq<char>, fill: Seq<char>, attrs: Seq<char>) -> Seq<char> {
    "<polyline points=\""@ + points + "\" stroke=\""@ + stroke + "\" stroke-width=\""@ + stroke_width + "\" fill=\""@ + fill
        + "\""@ + with_attrs(attrs) + "/>"@
}

/// Builds a `<polyline>` element; the points and width come formatted.
pub fn polyline_element(points: &str, stroke: &str, stroke_width: &str, fill: &str, attrs: &str) -> (r: String)
    ensures
        r@ == polyline_markup(points@, stroke@, stroke_width@, fill@, attrs@),
{
    let mut s = String::new();
    push_str_of(&mut s, "<polyline points=\"");
    push_str_of(&mut s, points);
    push_str_of(&mut s, "\" stroke=\"");
    push_str_of(&mut s, stroke);
    push_str_of(&mut s, "\" stroke-width=\"");
    push_str_of(&mut s, stroke_width);
    push_str_of(&mut s, "\" fill=\"");
    push_str_of(&mut s, fill);
    push_str_of(&mut s, "\"");
    push_attrs(&mut s, attrs);
    push_str_of(&mut s, "/>");
    assert(s@ =~= polyline_markup(points@, stroke@, stroke_width@, fill@, attrs@));
    s
}

} // verus!
