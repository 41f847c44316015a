use vstd::prelude::*;
use quick_xml::events::{BytesDecl, BytesEnd, BytesStart, BytesText, Event};
use quick_xml::Writer;

verus! {

/// One piece of XML markup, as the sitemap is written.
pub enum XmlPiece<'a> {
    /// `<?xml version="..." encoding="..."?>`
    Decl { version: &'a str, encoding: &'a str },
    /// An opening tag without attributes.
    Open { name: &'a str },
    /// An opening tag with one attribute, whose value is escaped.
    OpenWithAttr { name: &'a str, key: &'a str, value: &'a str },
    /// Text that is written as it stands, without escaping.
    Raw { text: &'a str },
    /// A closing tag.
    Close { name: &'a str },
}

/// How an attribute value is written: the markup characters, quotes and
/// the line-structure whitespace become character references.
pub open spec fn attr_escaped(s: Seq<char>) -> Seq<char>
    decreases s.len(),
{
    if s.len() == 0 {
        Seq::empty()
    } else {
        let c = s.last();
        let e = if c == '<' {
            "&lt;"@
        } else if c == '>' {
            "&gt;"@
        } else if c == '&' {
            "&amp;"@
        } else if c == '\'' {
            "&apos;"@
        } else if c == '"' {
            "&quot;"@
        } else if c == '\r' {
            "&#13;"@
        } else if c == '\n' {
            "&#10;"@
        } else if c == '\t' {
            "&#9;"@
        } else {
            seq![c]
        };
        attr_escaped(s.drop_last()) + e
    }
}

/// The text of a piece of markup.
pub open spec fn piece_text(p: XmlPiece<'_>) -> Seq<char> {
    match p {
        XmlPiece::Decl { version, encoding } =>
            "<?xml version=\""@ + version@ + "\" encoding=\""@ + encoding@ + "\"?>"@,
        XmlPiece::Open { name } => "<"@ + name@ + ">"@,
        XmlPiece::OpenWithAttr { name, key, value } =>
            "<"@ + name@ + " "@ + key@ + "=\""@ + attr_escaped(value@) + "\">"@,
        XmlPiece::Raw { text } => text@,
        XmlPiece::Close { name } => "</"@ + name@ + ">"@,
    }
}

/// Relies on quick_xml's `Writer::write_event` over a byte vector: a start
/// tag is written `<` name, attributes, `>` (an attribute as ` key="value"`
/// with the value escaped), an end tag `</` name `>`, a declaration inside
/// `<?` and `?>`, and text from `BytesText::from_escaped` as it stands.
/// Writing into a byte vector cannot fail, and every piece is UTF-8.
#[verifier::external_body]
fn write_piece(p: &XmlPiece) -> (r: Option<String>)
    ensures
        r is Some,
        r matches Some(s) ==> s@ == piece_text(*p),
{
    let event = match *p {
        XmlPiece::Decl { version, encoding } => Event::Decl(BytesDecl::new(version, Some(encoding), None)),
        XmlPiece::Open { name } => Event::Start(BytesStart::new(name)),
        XmlPiece::OpenWithAttr { name, key, value } => Event::Start(BytesStart::new(name).with_attributes([(key, value)])),
        XmlPiece::Raw { text } => Event::Text(BytesText::from_escaped(text)),
        XmlPiece::Close { name } => Event::End(BytesEnd::new(name)),
    };
    let mut writer = Writer::new(Vec::new());
    writer.write_event(event).ok()?;
    String::from_utf8(writer.into_inner()).ok()
}

/// Namespace of the sitemap protocol.
pub const SITEMAP_NAMESPACE: &'static str = "http://www.sitemaps.org/schemas/sitemap/0.9";

/// The `<url><loc>...</loc></url>` entries for the URLs, in order.
pub open spec fn url_entries(urls: Seq<String>) -> Seq<char>
    decreases urls.len(),
{
    if urls.len() == 0 {
        Seq::empty()
    } else {
        url_entries(urls.drop_last()) + "<url>"@ + "<loc>"@ + urls.last()@ + "</loc>"@ + "</url>"@
    }
}

/// The sitemap document for the URLs: the XML declaration, a `urlset` in
/// the sitemap namespace, and one entry per URL in the given order, with no
/// deduplication and nothing but the location.
pub open spec fn sitemap_text(urls: Seq<String>) -> Seq<char> {
    "<?xml version=\""@ + "1.0"@ + "\" encoding=\""@ + "UTF-8"@ + "\"?>"@
        + "<"@ + "urlset"@ + " "@ + "xmlns"@ + "=\""@ + attr_escaped(SITEMAP_NAMESPACE@) + "\">"@
        + url_entries(urls)
        + "</"@ + "urlset"@ + ">"@
}

fn append_piece(doc: &mut String, p: XmlPiece<'_>) -> (ok: bool)
    ensures
        ok,
        final(doc)@ == old(doc)@ + piece_text(p),
{
    match write_piece(&p) {
        Some(s) => {
            doc.append(s.as_str());
            true
        },
        None => false,
    }
}

/// Writes the sitemap document for the URLs (see `sitemap_text`).
pub fn sitemap_document(urls: &Vec<String>) -> (r: Option<String>)
    ensures
        r is Some,
        r matches Some(s) ==> s@ == sitemap_text(urls@),
{
    let mut doc = String::new();
    if !append_piece(&mut doc, XmlPiece::Decl { version: "1.0", encoding: "UTF-8" }) {
        return None;
    }
    let open_set = XmlPiece::OpenWithAttr {
        name: "urlset",
        key: "xmlns",
        value: SITEMAP_NAMESPACE,
    };
    if !append_piece(&mut doc, open_set) {
        return None;
    }
    let ghost head = doc@;
    let mut i: usize = 0;
    while i < urls.len()
        invariant
            i <= urls.len(),
            doc@ == head + url_entries(urls@.take(i as int)),
        decreases urls.len() - i,
    {
        proof {
            assert(urls@.take(i + 1).drop_last() =~= urls@.take(i as int));
        }
        if !append_piece(&mut doc, XmlPiece::Open { name: "url" }) {
            return None;
        }
        if !append_piece(&mut doc, XmlPiece::Open { name: "loc" }) {
            return None;
        }
        if !append_piece(&mut doc, XmlPiece::Raw { text: urls[i].as_str() }) {
            return None;
        }
        if !append_piece(&mut doc, XmlPiece::Close { name: "loc" }) {
            return None;
        }
        if !append_piece(&mut doc, XmlPiece::Close { name: "url" }) {
            return None;
        }
        proof {
            reveal_strlit("<");
            reveal_strlit(">");
            reveal_strlit("</");
            reveal_strlit("url");
            reveal_strlit("loc");
            reveal_strlit("<url>");
            reveal_strlit("<loc>");
            reveal_strlit("</loc>");
            reveal_strlit("</url>");
            assert(urls@.take(i + 1).last() == urls@[i as int]);
            assert(doc@ =~= head + url_entries(urls@.take(i + 1)));
        }
        i += 1;
    }
    if !append_piece(&mut doc, XmlPiece::Close { name: "urlset" }) {
        return None;
    }
    proof {
        assert(urls@.take(urls.len() as int) =~= urls@);
        assert(doc@ =~= sitemap_text(urls@));
    }
    Some(doc)
}

} // verus!
