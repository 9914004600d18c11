use solite::cli::html::{eq_ignore_ascii_case, Element, HtmlDoc};

#[test]
fn builds_expected_html() {
    let doc = HtmlDoc::new();
    let mut div = doc.div();
    div.attr("class", "section");
    div.style("color", "red");
    div.style("display", "block");
    let p = div.p();
    p.set_text("asdf");
    let html = div.to_html();
    assert_eq!(html, "<div style=\"color:red;display:block\" class=\"section\"><p>asdf</p></div>");
}

#[test]
fn escaping_works() {
    let mut el = Element::new("span");
    el.attr("title", "a < b & c \"quoted\"");
    el.set_text("Tom & Jerry <3");
    let html = el.to_html();
    assert_eq!(html, "<span title=\"a &lt; b &amp; c &quot;quoted&quot;\">Tom &amp; Jerry &lt;3</span>");
}

#[test]
fn setting_an_attribute_twice_replaces_it() {
    let mut el = Element::new("a");
    el.attr("HREF", "x").attr("id", "i").attr("href", "y");
    assert_eq!(el.to_html(), "<a href=\"y\" id=\"i\"></a>");
}

#[test]
fn style_attribute_is_merged_not_repeated() {
    let mut el = HtmlDoc::new().el("td");
    el.attr("style", "ignored");
    el.style("width", "1px");
    el.style("WIDTH", "2px");
    assert_eq!(el.to_html(), "<td style=\"WIDTH:2px\"></td>");
}

#[test]
fn children_render_in_order_with_apostrophes_escaped() {
    let mut ul = Element::new("ul");
    ul.child("li").set_text("one");
    ul.span().attr("data-x", "it's");
    ul.div();
    assert_eq!(ul.to_html(), "<ul><li>one</li><span data-x=\"it&#39;s\"></span><div></div></ul>");
}

#[test]
fn ascii_case_comparison() {
    assert!(eq_ignore_ascii_case("Style", "sTYLE"));
    assert!(!eq_ignore_ascii_case("style", "styles"));
    assert!(!eq_ignore_ascii_case("é", "É"));
}

#[test]
fn html_escape_writes_entities() {
    assert_eq!(
        solite::cli::html::html_escape(&"a<b & 'c' > \"d\"".to_string()),
        "a&lt;b &amp; &#39;c&#39; &gt; &quot;d&quot;"
    );
    assert_eq!(solite::cli::html::html_escape(&"plain".to_string()), "plain");
}

#[test]
fn replacing_an_attribute_keeps_its_place_in_the_html() {
    let mut el = Element::new("img");
    el.attr("alt", "old").attr("src", "a.png");
    assert_eq!(el.to_html(), "<img alt=\"old\" src=\"a.png\"></img>");
    el.attr("ALT", "new & better");
    assert_eq!(el.to_html(), "<img ALT=\"new &amp; better\" src=\"a.png\"></img>");
    el.attr("width", "10");
    assert_eq!(el.to_html(), "<img ALT=\"new &amp; better\" src=\"a.png\" width=\"10\"></img>");
}
