//! The frame of every HTML page: head, navigation and the page's own content.
use vstd::prelude::*;
use vstd::string::StringExecFns;
use std::sync::Arc;

verus! {

/// The network the index follows.
#[derive(Debug, Clone, Copy, PartialEq, Eq)]
pub enum Chain {
    Mainnet,
    Testnet,
    Signet,
    Regtest,
}

impl Chain {
    pub open spec fn spec_name(self) -> Seq<char> {
        match self {
            Chain::Mainnet => "mainnet"@,
            Chain::Testnet => "testnet"@,
            Chain::Signet => "signet"@,
            Chain::Regtest => "regtest"@,
        }
    }

    /// The lower-case name of the network.
    pub fn name(&self) -> (r: String)
        ensures
            r@ == self.spec_name(),
    {
        match self {
            Chain::Mainnet => String::from_str("mainnet"),
            Chain::Testnet => String::from_str("testnet"),
            Chain::Signet => String::from_str("signet"),
            Chain::Regtest => String::from_str("regtest"),
        }
    }
}

/// Settings shared by every page.
#[derive(Debug, Clone, PartialEq, Eq)]
pub struct PageConfig {
    pub chain: Chain,
    pub domain: Option<String>,
    pub index_sats: bool,
}

impl PageConfig {
    pub open spec fn spec_domain(self) -> Option<Seq<char>> {
        match self.domain {
            Some(d) => Some(d@),
            None => None,
        }
    }
}

/// What a page shows inside the frame.
pub trait PageContent: Sized {
    /// The title, as plain text.
    fn title(&self) -> String;

    /// The content, as HTML.
    fn body(&self) -> String;

    fn page(self, page_config: Arc<PageConfig>) -> PageHtml<Self> {
        PageHtml { content: self, config: page_config }
    }
}

/// A page: content inside the frame.
pub struct PageHtml<T: PageContent> {
    pub content: T,
    pub config: Arc<PageConfig>,
}

/// The HTML text of a character.
pub open spec fn escaped_char(c: char) -> Seq<char> {
    if c == '"' {
        "&quot;"@
    } else if c == '&' {
        "&amp;"@
    } else if c == '<' {
        "&lt;"@
    } else if c == '>' {
        "&gt;"@
    } else if c == '\'' {
        "&apos;"@
    } else {
        seq![c]
    }
}

/// The HTML text of plain text.
pub open spec fn escaped(s: Seq<char>) -> Seq<char>
    decreases s.len(),
{
    if s.len() == 0 {
        Seq::empty()
    } else {
        escaped(s.drop_last()) + escaped_char(s.last())
    }
}

/// Relies on String::push: appends one character.
#[verifier::external_body]
fn push_char(s: &mut String, c: char)
    ensures
        final(s)@ == old(s)@.push(c),
{
    s.push(c)
}

/// Writes plain text as HTML text.
pub fn escape_html(s: &str) -> (r: String)
    ensures
        r@ == escaped(s@),
{
    let mut out = String::new();
    for c in it: s.chars()
        invariant
            it.seq() == s@,
            out@ == escaped(it.seq().take(it.index())),
            it.index() == it.seq().len() ==> out@ == escaped(s@),
    {
        proof {
            assert(it.seq().take(it.index() + 1).drop_last() =~= it.seq().take(it.index()));
            assert(it.seq().take(it.seq().len() as int) =~= s@);
        }
        if c == '"' {
            out.append("&quot;");
        } else if c == '&' {
            out.append("&amp;");
        } else if c == '<' {
            out.append("&lt;");
        } else if c == '>' {
            out.append("&gt;");
        } else if c == '\'' {
            out.append("&apos;");
        } else {
            push_char(&mut out, c);
        }
    }
    out
}

/// The page around `body`, with its title, preview image and the superscript
/// of the site name; the title and image URL are given as plain text.
pub open spec fn page_text(
    title: Seq<char>,
    image: Seq<char>,
    superscript: Seq<char>,
    index_sats: bool,
    body: Seq<char>,
) -> Seq<char> {
    "<!doctype html>\n<html lang=en>\n  <head>\n    <meta charset=utf-8>\n"@
        + "    <meta name=format-detection content='telephone=no'>\n"@
        + "    <meta name=viewport content='width=device-width,initial-scale=1.0'>\n"@
        + "    <meta property=og:title content='"@ + escaped(title) + "'>\n"@
        + "    <meta property=og:image content='"@ + escaped(image) + "'>\n"@
        + "    <meta property=twitter:card content=summary>\n    <title>"@ + escaped(title)
        + "</title>\n"@
        + "    <link rel=alternate href=/feed.xml type=application/rss+xml title='Inscription RSS Feed'>\n"@
        + "    <link rel=stylesheet href=/static/index.css>\n"@
        + "    <link rel=stylesheet href=/static/modern-normalize.css>\n"@
        + "    <script src=/static/index.js defer></script>\n  </head>\n  <body>\n  <header>\n    <nav>\n"@
        + "      <a href=/>Dunes<sup>"@ + escaped(superscript) + "</sup></a>\n"@
        + "      <a href=/dunes>Dunes</a>\n"@ + if index_sats {
        "      <a href=/rare.txt>rare.txt</a>\n"@
    } else {
        Seq::empty()
    } + "      <form action=/search method=get>\n"@
        + "        <input type=text spellcheck=false autofocus name=query>\n"@
        + "        <input type=submit value=Search>\n      </form>\n    </nav>\n  </header>\n  <main>\n"@
        + body + "\n  </main>\n  </body>\n</html>\n"@
}

/// Writes the page around `body`.
pub fn render_page(title: &str, image: &str, superscript: &str, index_sats: bool, body: &str) -> (r:
    String)
    ensures
        r@ == page_text(title@, image@, superscript@, index_sats, body@),
{
    let t = escape_html(title);
    let i = escape_html(image);
    let s = escape_html(superscript);
    let mut out = String::from_str("<!doctype html>\n<html lang=en>\n  <head>\n    <meta charset=utf-8>\n");
    out.append("    <meta name=format-detection content='telephone=no'>\n");
    out.append("    <meta name=viewport content='width=device-width,initial-scale=1.0'>\n");
    out.append("    <meta property=og:title content='");
    out.append(t.as_str());
    out.append("'>\n");
    out.append("    <meta property=og:image content='");
    out.append(i.as_str());
    out.append("'>\n");
    out.append("    <meta property=twitter:card content=summary>\n    <title>");
    out.append(t.as_str());
    out.append("</title>\n");
    out.append("    <link rel=alternate href=/feed.xml type=application/rss+xml title='Inscription RSS Feed'>\n");
    out.append("    <link rel=stylesheet href=/static/index.css>\n");
    out.append("    <link rel=stylesheet href=/static/modern-normalize.css>\n");
    out.append("    <script src=/static/index.js defer></script>\n  </head>\n  <body>\n  <header>\n    <nav>\n");
    out.append("      <a href=/>Dunes<sup>");
    out.append(s.as_str());
    out.append("</sup></a>\n");
    out.append("      <a href=/dunes>Dunes</a>\n");
    let ghost before = out@;
    if index_sats {
        out.append("      <a href=/rare.txt>rare.txt</a>\n");
    } else {
        assert(out@ =~= before + Seq::<char>::empty());
    }
    out.append("      <form action=/search method=get>\n");
    out.append("        <input type=text spellcheck=false autofocus name=query>\n");
    out.append("        <input type=submit value=Search>\n      </form>\n    </nav>\n  </header>\n  <main>\n");
    out.append(body);
    out.append("\n  </main>\n  </body>\n</html>\n");
    out
}

/// The preview image of a site served at `domain`, or of the default site.
pub open spec fn og_image_of(domain: Option<Seq<char>>) -> Seq<char> {
    match domain {
        Some(d) => "https://"@ + d + "/static/favicon.png"@,
        None => "https://ordinals.com/static/favicon.png"@,
    }
}

/// The superscript of the site name: `alpha` on mainnet, else the network.
pub open spec fn superscript_of(chain: Chain) -> Seq<char> {
    if chain == Chain::Mainnet {
        "alpha"@
    } else {
        chain.spec_name()
    }
}

impl<T: PageContent> PageHtml<T> {
    pub fn new(content: T, config: Arc<PageConfig>) -> (r: Self)
        ensures
            r.content == content,
            r.config == config,
    {
        PageHtml { content, config }
    }

    pub fn og_image(&self) -> (r: String)
        ensures
            r@ == og_image_of(self.config.spec_domain()),
    {
        match &self.config.domain {
            Some(domain) => {
                let mut out = String::from_str("https://");
                out.append(domain.as_str());
                out.append("/static/favicon.png");
                out
            },
            None => String::from_str("https://ordinals.com/static/favicon.png"),
        }
    }

    pub fn superscript(&self) -> (r: String)
        ensures
            r@ == superscript_of(self.config.chain),
    {
        match self.config.chain {
            Chain::Mainnet => String::from_str("alpha"),
            _ => self.config.chain.name(),
        }
    }

    /// The whole page.
    pub fn render(&self) -> (r: String)
        ensures
            exists|title: Seq<char>, body: Seq<char>|
                r@ == #[trigger] page_text(
                    title,
                    og_image_of(self.config.spec_domain()),
                    superscript_of(self.config.chain),
                    self.config.index_sats,
                    body,
                ),
    {
        let title = self.content.title();
        let body = self.content.body();
        let image = self.og_image();
        let superscript = self.superscript();
        render_page(
            title.as_str(),
            image.as_str(),
            superscript.as_str(),
            self.config.index_sats,
            body.as_str(),
        )
    }
}

} // verus!
