use rskit_bench::viz::{apply_options, circle_element, color_at, line_element, polyline_element, rect_element, text_element, with_size, Svg};

#[test]
fn svg_document_wraps_elements() {
    let mut svg = Svg::new(600, 400);
    svg.push(text_element("300.00", "24.00", "A<B", "#333", 14, "text-anchor=\"middle\""));
    let out = svg.render();
    assert_eq!(
        out,
        "<svg xmlns=\"http://www.w3.org/2000/svg\" width=\"600\" height=\"400\" viewBox=\"0 0 600 400\">\n<rect width=\"600\" height=\"400\" fill=\"white\"/>\n<text x=\"300.00\" y=\"24.00\" fill=\"#333\" font-size=\"14\" text-anchor=\"middle\">A&lt;B</text>\n</svg>"
    );
}

#[test]
fn empty_svg_has_only_background() {
    assert_eq!(
        Svg::new(1, 2).render(),
        "<svg xmlns=\"http://www.w3.org/2000/svg\" width=\"1\" height=\"2\" viewBox=\"0 0 1 2\">\n<rect width=\"1\" height=\"2\" fill=\"white\"/>\n</svg>"
    );
}

#[test]
fn element_markup() {
    assert_eq!(rect_element("1.00", "2.00", "3.00", "4.00", "#fff", ""), "<rect x=\"1.00\" y=\"2.00\" width=\"3.00\" height=\"4.00\" fill=\"#fff\"/>");
    assert_eq!(line_element("0.00", "1.00", "2.00", "3.00", "#333", "1.0", ""), "<line x1=\"0.00\" y1=\"1.00\" x2=\"2.00\" y2=\"3.00\" stroke=\"#333\" stroke-width=\"1.0\"/>");
    assert_eq!(circle_element("1.00", "2.00", "3.0", "red", "opacity=\"0.5\""), "<circle cx=\"1.00\" cy=\"2.00\" r=\"3.0\" fill=\"red\" opacity=\"0.5\"/>");
    assert_eq!(polyline_element("0.00,0.00 1.00,1.00", "blue", "2.0", "none", ""), "<polyline points=\"0.00,0.00 1.00,1.00\" stroke=\"blue\" stroke-width=\"2.0\" fill=\"none\"/>");
}

#[test]
fn palette_cycles() {
    assert_eq!(color_at(0), "#4285F4");
    assert_eq!(color_at(7), "#795548");
    assert_eq!(color_at(8), "#4285F4");
    assert_eq!(color_at(10), "#34A853");
}

#[test]
fn render_options_last_size_wins() {
    let d = apply_options(&Vec::new());
    assert_eq!((d.width, d.height), (600, 400));
    let c = apply_options(&vec![with_size(800, 600), with_size(300, 200)]);
    assert_eq!((c.width, c.height), (300, 200));
}
