use rskit_bench::markup::{chart_title, csv_escape, escape, footer, xml_escape};
use rskit_bench::viz::xml_escape as svg_escape;

#[test]
fn html_escape_neutralizes_markup() {
    assert_eq!(escape("<script>alert('x') & \"y\"</script>"), "&lt;script&gt;alert(&#39;x&#39;) &amp; &quot;y&quot;&lt;/script&gt;");
    assert_eq!(escape("plain"), "plain");
}

#[test]
fn junit_xml_escape_covers_apostrophes() {
    assert_eq!(xml_escape("a&b<c>d\"e'f"), "a&amp;b&lt;c&gt;d&quot;e&apos;f");
}

#[test]
fn svg_escape_leaves_apostrophes() {
    assert_eq!(svg_escape("a&b<c>d\"e'f"), "a&amp;b&lt;c&gt;d&quot;e'f");
}

#[test]
fn csv_escape_doubles_quotes() {
    assert_eq!(csv_escape("say \"hi\""), "say \"\"hi\"\"");
}

#[test]
fn chart_titles_replace_underscores() {
    assert_eq!(chart_title("score_distribution"), "score distribution");
}

#[test]
fn html_footer_embeds_each_chart() {
    assert_eq!(footer(0), "</div>\n</body>\n</html>\n");
    let f = footer(2);
    assert!(f.starts_with("<script>\ndocument.addEventListener('DOMContentLoaded', function() {\n"));
    assert!(f.contains("  var spec0 = JSON.parse(document.getElementById('chart-0-spec').textContent);\n  vegaEmbed('#chart-0', spec0, {actions: false}).catch(console.error);\n"));
    assert!(f.contains("vegaEmbed('#chart-1', spec1"));
    assert!(f.ends_with("});\n</script>\n</div>\n</body>\n</html>\n"));
}
