use vstd::prelude::*;
use crate::pages::PageResult;
use crate::site::{trim_end_slashes, trim_domain};
use crate::text::{chars_of, join2, string_of};

verus! {

/// A character with the Unicode `White_Space` property, as `char::is_whitespace` has it.
pub open spec fn white_space(c: char) -> bool {
    let n = c as u32;
    (9 <= n <= 13) || n == 32 || n == 0x85 || n == 0xA0 || n == 0x1680 || (0x2000 <= n <= 0x200A)
        || n == 0x2028 || n == 0x2029 || n == 0x202F || n == 0x205F || n == 0x3000
}

/// The text without its leading white space.
pub open spec fn trim_start_of(s: Seq<char>) -> Seq<char>
    decreases s.len(),
{
    if s.len() > 0 && white_space(s[0]) { trim_start_of(s.drop_first()) } else { s }
}

/// The text without its trailing white space.
pub open spec fn trim_end_of(s: Seq<char>) -> Seq<char>
    decreases s.len(),
{
    if s.len() > 0 && white_space(s.last()) { trim_end_of(s.drop_last()) } else { s }
}

/// The text without leading and trailing white space.
pub open spec fn trim_of(s: Seq<char>) -> Seq<char> {
    trim_end_of(trim_start_of(s))
}

fn is_white_space(c: char) -> (r: bool)
    ensures
        r == white_space(c),
{
    let n = c as u32;
    (9 <= n && n <= 13) || n == 32 || n == 0x85 || n == 0xA0 || n == 0x1680 || (0x2000 <= n && n <= 0x200A)
        || n == 0x2028 || n == 0x2029 || n == 0x202F || n == 0x205F || n == 0x3000
}

/// The text without leading and trailing white space (as `str::trim`).
pub fn trim(s: &str) -> (r: String)
    ensures
        r@ == trim_of(s@),
{
    let v = chars_of(s);
    let n = v.len();
    let mut a: usize = 0;
    assert(v@.subrange(0, n as int) =~= v@);
    while a < n && is_white_space(v[a])
        invariant
            n == v.len(),
            a <= n,
            trim_start_of(v@) == trim_start_of(v@.subrange(a as int, n as int)),
        decreases n - a,
    {
        assert(v@.subrange(a as int, n as int).drop_first() =~= v@.subrange(a + 1, n as int));
        a += 1;
    }
    assert(trim_start_of(v@) == v@.subrange(a as int, n as int));
    let mut b: usize = n;
    while b > a && is_white_space(v[b - 1])
        invariant
            n == v.len(),
            a <= b <= n,
            trim_of(v@) == trim_end_of(v@.subrange(a as int, b as int)),
        decreases b,
    {
        assert(v@.subrange(a as int, b as int).drop_last() =~= v@.subrange(a as int, b - 1));
        b -= 1;
    }
    let mut out: Vec<char> = Vec::new();
    let mut i: usize = a;
    while i < b
        invariant
            a <= i <= b,
            b <= n,
            n == v.len(),
            out@ == v@.subrange(a as int, i as int),
        decreases b - i,
    {
        assert(v@.subrange(a as int, i + 1) =~= v@.subrange(a as int, i as int).push(v@[i as int]));
        out.push(v[i]);
        i += 1;
    }
    assert(trim_end_of(v@.subrange(a as int, b as int)) == v@.subrange(a as int, b as int));
    string_of(&out)
}

/// Title of the digest when the site metadata gives none.
pub const DEFAULT_DIGEST_TITLE: &'static str = "LLM Content Index";

/// The header of the digest: the title line, the description paragraph
/// when the (trimmed) description is not blank, and the contents heading.
pub open spec fn header_text(title: Seq<char>, note: Seq<char>) -> Seq<char> {
    "# "@ + title + "\n\n"@ + (if note.len() > 0 { note + "\n\n"@ } else { Seq::empty() }) + "## Contents\n\n"@
}

/// One entry of the digest: a list item linking to the copy, followed by
/// `: ` and the (trimmed) description when it is not blank.
pub open spec fn entry_text(title: Seq<char>, link: Seq<char>, note: Seq<char>) -> Seq<char> {
    "- ["@ + title + "]("@ + link + ")"@ + (if note.len() > 0 { ": "@ + note } else { Seq::empty() }) + "\n"@
}

/// The description of an entry as it appears in the digest.
pub open spec fn entry_note(d: Option<String>) -> Seq<char> {
    match d {
        Some(s) => trim_of(s@),
        None => Seq::empty(),
    }
}

/// The entries of the digest for the results from `i` on: one per result
/// whose copy was written, linking to the domain followed by the copy's path.
pub open spec fn entries_text(rs: Seq<PageResult>, domain: Seq<char>) -> Seq<char>
    decreases rs.len(),
{
    if rs.len() == 0 {
        Seq::empty()
    } else {
        let r = rs.last();
        let before = entries_text(rs.drop_last(), domain);
        if r.copied && r.copy_path is Some {
            before + entry_text(r.title@, domain + "/"@ + r.copy_path.unwrap()@, entry_note(r.digest_description))
        } else {
            before
        }
    }
}

/// The whole digest document.
pub open spec fn digest_text(title: Seq<char>, description: Option<Seq<char>>, domain: Seq<char>, rs: Seq<PageResult>) -> Seq<char> {
    let note = match description {
        Some(d) => trim_of(d),
        None => Seq::empty(),
    };
    header_text(title, note) + entries_text(rs, trim_end_slashes(domain))
}

/// Builds the digest header from a title and an already trimmed description.
pub fn digest_header(title: &str, note: &str) -> (r: String)
    ensures
        r@ == header_text(title@, note@),
{
    let a = join2("# ", title);
    let mut r = join2(a.as_str(), "\n\n");
    if note.unicode_len() > 0 {
        r.append(note);
        r.append("\n\n");
    }
    r.append("## Contents\n\n");
    proof {
        assert(r@ =~= header_text(title@, note@));
    }
    r
}

/// Builds one digest entry from a title, a link and an already trimmed description.
pub fn digest_entry(title: &str, link: &str, note: &str) -> (r: String)
    ensures
        r@ == entry_text(title@, link@, note@),
{
    let a = join2("- [", title);
    let mut r = join2(a.as_str(), "](");
    r.append(link);
    r.append(")");
    if note.unicode_len() > 0 {
        r.append(": ");
        r.append(note);
    }
    r.append("\n");
    proof {
        assert(r@ =~= entry_text(title@, link@, note@));
    }
    r
}

/// Builds the digest document: the header, then one entry per page result
/// whose digest copy was written, in the order of the results.
pub fn digest_document(title: Option<&str>, description: Option<&str>, domain: &str, results: &Vec<PageResult>) -> (r: String)
    ensures
        r@ == digest_text(
            match title { Some(t) => t@, None => DEFAULT_DIGEST_TITLE@ },
            match description { Some(d) => Some(d@), None => None },
            domain@,
            results@,
        ),
{
    let note = match description {
        Some(d) => trim(d),
        None => String::new(),
    };
    let t = match title {
        Some(t) => t,
        None => DEFAULT_DIGEST_TITLE,
    };
    let mut doc = digest_header(t, note.as_str());
    let d = trim_domain(domain);
    let root = join2(d.as_str(), "/");
    let ghost head = doc@;
    let mut i: usize = 0;
    while i < results.len()
        invariant
            i <= results.len(),
            root@ == trim_end_slashes(domain@) + "/"@,
            doc@ == head + entries_text(results@.take(i as int), trim_end_slashes(domain@)),
        decreases results.len() - i,
    {
        let r = &results[i];
        proof {
            assert(results@.take(i + 1).drop_last() =~= results@.take(i as int));
        }
        if r.copied {
            if let Some(p) = &r.copy_path {
                let link = join2(root.as_str(), p.as_str());
                let n = match &r.digest_description {
                    Some(dd) => trim(dd.as_str()),
                    None => String::new(),
                };
                let e = digest_entry(r.title.as_str(), link.as_str(), n.as_str());
                doc.append(e.as_str());
                proof {
                    assert(link@ == trim_end_slashes(domain@) + "/"@ + p@);
                }
            }
        }
        i += 1;
    }
    proof {
        assert(results@.take(results.len() as int) =~= results@);
    }
    doc
}

} // verus!
