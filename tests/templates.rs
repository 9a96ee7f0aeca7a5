use dunes_index::templates::{escape_html, render_page, Chain, PageConfig, PageContent, PageHtml};
use regex::Regex;
use std::sync::Arc;

struct Foo;

impl PageContent for Foo {
    fn title(&self) -> String {
        "Foo".to_string()
    }

    fn body(&self) -> String {
        "<h1>Foo</h1>".to_string()
    }
}

fn assert_regex_match(text: &str, pattern: &str) {
    let re = Regex::new(&format!("^(?s){}$", pattern)).unwrap();
    assert!(re.is_match(text), "'{}' does not match '{}'", text, pattern);
}

#[test]
fn page() {
    assert_regex_match(
        &Foo.page(Arc::new(PageConfig {
            chain: Chain::Mainnet,
            domain: Some("signet.ordinals.com".into()),
            index_sats: true,
        }))
        .render(),
        r"<!doctype html>
<html lang=en>
  <head>
    <meta charset=utf-8>
    <meta name=format-detection content='telephone=no'>
    <meta name=viewport content='width=device-width,initial-scale=1.0'>
    <meta property=og:title content='Foo'>
    <meta property=og:image content='https://signet.ordinals.com/static/favicon.png'>
    <meta property=twitter:card content=summary>
    <title>Foo</title>
    <link rel=alternate href=/feed.xml type=application/rss\+xml title='Inscription RSS Feed'>
    <link rel=stylesheet href=/static/index.css>
    <link rel=stylesheet href=/static/modern-normalize.css>
    <script src=/static/index.js defer></script>
  </head>
  <body>
  <header>
    <nav>
      <a href=/>Dunes<sup>alpha</sup></a>
      .*
      <a href=/rare.txt>rare.txt</a>
      <form action=/search method=get>
        <input type=text .*>
        <input type=submit value=Search>
      </form>
    </nav>
  </header>
  <main>
<h1>Foo</h1>
  </main>
  </body>
</html>
",
    );
}

#[test]
fn page_mainnet() {
    assert_regex_match(
        &Foo.page(Arc::new(PageConfig { chain: Chain::Mainnet, domain: None, index_sats: true }))
            .render(),
        r".*<nav>\s*<a href=/>Dunes<sup>alpha</sup></a>.*",
    );
}

#[test]
fn page_no_sat_index() {
    assert_regex_match(
        &Foo.page(Arc::new(PageConfig { chain: Chain::Mainnet, domain: None, index_sats: false }))
            .render(),
        r".*<nav>\s*<a href=/>Dunes<sup>alpha</sup></a>.*\s*<form action=/search.*",
    );
}

#[test]
fn page_signet() {
    assert_regex_match(
        &Foo.page(Arc::new(PageConfig { chain: Chain::Signet, domain: None, index_sats: true }))
            .render(),
        r".*<nav>\s*<a href=/>Dunes<sup>signet</sup></a>.*",
    );
}

#[test]
fn og_image_and_superscript() {
    let p = PageHtml::new(Foo, Arc::new(PageConfig { chain: Chain::Regtest, domain: None, index_sats: false }));
    assert_eq!(p.og_image(), "https://ordinals.com/static/favicon.png");
    assert_eq!(p.superscript(), "regtest");
    assert!(!p.render().contains("rare.txt"));
}

#[test]
fn html_special_characters_are_escaped() {
    assert_eq!(escape_html(r#"<a href="x">'&'</a>"#), "&lt;a href=&quot;x&quot;&gt;&apos;&amp;&apos;&lt;/a&gt;");
    assert_eq!(escape_html("plain ¢"), "plain ¢");
    let page = render_page("A<B", "img", "alpha", true, "<p>");
    assert!(page.contains("<title>A&lt;B</title>"));
    assert!(page.contains("<main>\n<p>\n  </main>"));
}
