use vstd::prelude::*;
use crate::meta::{Meta, copy_wanted, should_copy_markdown};
use crate::text::{chars_of, string_of, same_text, join2, join_slash, slash_joined};

verus! {

/// What `char::to_uppercase` yields for a character.
pub uninterp spec fn upper_of(c: char) -> Seq<char>;

/// Relies on `char::to_uppercase`: the upper-case form of `c`, which may be
/// more than one character.
#[verifier::external_body]
fn upper(c: char) -> (r: String)
    ensures
        r@ == upper_of(c),
{
    c.to_uppercase().collect()
}

/// Title of a folder name from position `i` on: each `-` becomes a space and
/// the first character of each word is put in upper case.
pub open spec fn title_from(s: Seq<char>, i: int, word_start: bool) -> Seq<char>
    decreases s.len() - i,
{
    if i < 0 || i >= s.len() {
        Seq::empty()
    } else if s[i] == '-' {
        " "@ + title_from(s, i + 1, true)
    } else if word_start {
        upper_of(s[i]) + title_from(s, i + 1, false)
    } else {
        seq![s[i]] + title_from(s, i + 1, false)
    }
}

/// The title derived from a folder name, or the placeholder without one.
pub open spec fn folder_title(folder: Option<Seq<char>>) -> Seq<char> {
    match folder {
        Some(name) => title_from(name, 0, true),
        None => "Untitled"@,
    }
}

/// Turns a folder name into a title: split on `-`, each word's first
/// character in upper case, words joined by a space. Without a name the
/// title is `Untitled`.
pub fn folder_name_to_title(folder: Option<&str>) -> (r: String)
    ensures
        r@ == folder_title(match folder { Some(f) => Some(f@), None => None }),
{
    match folder {
        None => "Untitled".to_owned(),
        Some(f) => {
            let s = chars_of(f);
            let mut out: Vec<char> = Vec::new();
            let mut start = true;
            let mut i: usize = 0;
            while i < s.len()
                invariant
                    s@ == f@,
                    i <= s.len(),
                    out@ + title_from(s@, i as int, start) == title_from(s@, 0, true),
                decreases s.len() - i,
            {
                let c = s[i];
                if c == '-' {
                    proof {
                        reveal_strlit(" ");
                        assert(out@.push(' ') + title_from(s@, i + 1, true) =~= out@ + title_from(s@, i as int, start));
                    }
                    out.push(' ');
                    start = true;
                } else if start {
                    let u = upper(c);
                    let mut uc = chars_of(u.as_str());
                    proof {
                        assert(out@ + uc@ + title_from(s@, i + 1, false) =~= out@ + title_from(s@, i as int, start));
                    }
                    out.append(&mut uc);
                    start = false;
                } else {
                    proof {
                        assert(out@.push(c) + title_from(s@, i + 1, false) =~= out@ + title_from(s@, i as int, start));
                    }
                    out.push(c);
                    start = false;
                }
                i += 1;
            }
            string_of(&out)
        },
    }
}

/// Index of the last `.` before position `end`, or -1.
pub open spec fn last_dot(s: Seq<char>, end: int) -> int
    decreases end,
{
    if end <= 0 || end > s.len() {
        -1
    } else if s[end - 1] == '.' {
        end - 1
    } else {
        last_dot(s, end - 1)
    }
}

/// A file name without its extension. The extension follows the last `.`,
/// unless that `.` opens the name.
pub open spec fn stem(name: Seq<char>) -> Seq<char> {
    let d = last_dot(name, name.len() as int);
    if d > 0 { name.take(d) } else { name }
}

/// A file name with its extension replaced by `html`.
pub open spec fn html_name(name: Seq<char>) -> Seq<char> {
    stem(name) + ".html"@
}

fn stem_exec(name: &str) -> (r: String)
    ensures
        r@ == stem(name@),
{
    let s = chars_of(name);
    let mut end: usize = s.len();
    while end > 0 && s[end - 1] != '.'
        invariant
            s@ == name@,
            end <= s.len(),
            last_dot(s@, s.len() as int) == last_dot(s@, end as int),
        decreases end,
    {
        end -= 1;
    }
    if end > 1 {
        let mut out: Vec<char> = Vec::new();
        let mut i: usize = 0;
        while i < end - 1
            invariant
                end <= s.len(),
                i <= end - 1,
                out@ == s@.take(i as int),
            decreases end - 1 - i,
        {
            assert(s@.take(i + 1) =~= s@.take(i as int).push(s@[i as int]));
            out.push(s[i]);
            i += 1;
        }
        string_of(&out)
    } else {
        name.to_owned()
    }
}

/// Replaces the extension of a file name with `html`.
pub fn html_file_name(name: &str) -> (r: String)
    ensures
        r@ == html_name(name@),
{
    let st = stem_exec(name);
    join2(st.as_str(), ".html")
}

/// The name of a directory-index file.
pub open spec fn is_index(name: Seq<char>) -> bool {
    name == "index.md"@
}

/// Title of a page: the metadata title; else, for a directory-index file,
/// the title of its folder's name; else the file name without extension;
/// else a placeholder.
pub open spec fn page_title(meta_title: Option<Seq<char>>, name: Seq<char>, folder: Option<Seq<char>>) -> Seq<char> {
    match meta_title {
        Some(t) => t,
        None => if is_index(name) {
            folder_title(folder)
        } else if name.len() > 0 {
            stem(name)
        } else {
            "Untitled"@
        },
    }
}

/// Where a source file sits below the content root.
#[derive(Debug, Clone)]
pub struct SourceFile {
    /// Path components below the content root; the last is the file name.
    pub rel: Vec<String>,
    /// Name of the directory that holds the file, if it has one.
    pub folder: Option<String>,
}

impl SourceFile {
    pub open spec fn wf(&self) -> bool {
        self.rel.len() >= 1
    }

    pub open spec fn name(&self) -> Seq<char> {
        self.rel.deep_view().last()
    }

    pub open spec fn folder_view(&self) -> Option<Seq<char>> {
        match self.folder {
            Some(f) => Some(f@),
            None => None,
        }
    }
}

pub open spec fn opt_view(o: Option<String>) -> Option<Seq<char>> {
    match o {
        Some(s) => Some(s@),
        None => None,
    }
}

/// Resolves the title of a page (see `page_title`).
pub fn resolve_title(src: &SourceFile, meta: &Meta) -> (r: String)
    requires
        src.wf(),
    ensures
        r@ == page_title(opt_view(meta.title), src.name(), src.folder_view()),
{
    let name = &src.rel[src.rel.len() - 1];
    match &meta.title {
        Some(t) => t.clone(),
        None => {
            if same_text(name.as_str(), "index.md") {
                match &src.folder {
                    Some(f) => folder_name_to_title(Some(f.as_str())),
                    None => folder_name_to_title(None),
                }
            } else if !name.as_str().is_empty() {
                stem_exec(name.as_str())
            } else {
                "Untitled".to_owned()
            }
        },
    }
}

/// Output path components below the output root. A directory-index file
/// with a slug goes to `<slug>/index.html` in place of its own directory
/// (directly under the root when it has none); any other file mirrors its
/// source path with the extension rewritten.
pub open spec fn dest_of(rel: Seq<Seq<char>>, slug: Option<Seq<char>>) -> Seq<Seq<char>> {
    let name = rel.last();
    if is_index(name) && slug is Some {
        let keep = if rel.len() >= 2 { rel.len() - 2 } else { 0 };
        rel.take(keep).push(slug.unwrap()).push("index.html"@)
    } else {
        rel.drop_last().push(html_name(name))
    }
}

/// A source path mirrored below another root: `/`-separated, with the file
/// extension rewritten to `html`.
pub open spec fn mirror_path(rel: Seq<Seq<char>>) -> Seq<char> {
    slash_joined(rel.drop_last().push(html_name(rel.last())))
}

/// Public URL path of a page, under the site base path. A directory-index
/// file with a slug is published at `<base>/<slug>/index.html`.
pub open spec fn url_of(rel: Seq<Seq<char>>, slug: Option<Seq<char>>, base: Seq<char>) -> Seq<char> {
    let name = rel.last();
    if is_index(name) && slug is Some {
        base + "/"@ + slug.unwrap() + "/index.html"@
    } else {
        base + "/"@ + mirror_path(rel)
    }
}

/// Path of the digest copy below the output root: beside the page, under
/// the source file's own name.
pub open spec fn copy_path_of(dest: Seq<Seq<char>>, name: Seq<char>) -> Seq<Seq<char>> {
    dest.drop_last().push(name)
}

fn clone_parts(v: &Vec<String>, n: usize) -> (r: Vec<String>)
    requires
        n <= v.len(),
    ensures
        r.deep_view() == v.deep_view().take(n as int),
{
    let mut r: Vec<String> = Vec::new();
    let mut i: usize = 0;
    while i < n
        invariant
            n <= v.len(),
            i <= n,
            r@ == v@.take(i as int),
        decreases n - i,
    {
        let s = v[i].clone();
        r.push(s);
        proof {
            assert(r@ =~= v@.take(i + 1));
        }
        i += 1;
    }
    assert(r.deep_view() =~= v.deep_view().take(n as int));
    r
}

fn push_part(v: &mut Vec<String>, s: String)
    ensures
        final(v).deep_view() == old(v).deep_view().push(s@),
{
    v.push(s);
    proof {
        assert(final(v).deep_view() =~= old(v).deep_view().push(s@));
    }
}

/// Computes the output path components of a page (see `dest_of`).
pub fn destination(src: &SourceFile, slug: Option<&String>) -> (r: Vec<String>)
    requires
        src.wf(),
    ensures
        r.deep_view() == dest_of(src.rel.deep_view(), match slug { Some(s) => Some(s@), None => None }),
{
    let n = src.rel.len();
    let name = &src.rel[n - 1];
    let index = same_text(name.as_str(), "index.md");
    match slug {
        Some(sl) if index => {
            let keep = if n >= 2 { n - 2 } else { 0 };
            let mut r = clone_parts(&src.rel, keep);
            push_part(&mut r, sl.clone());
            push_part(&mut r, "index.html".to_owned());
            r
        },
        _ => {
            let mut r = clone_parts(&src.rel, n - 1);
            proof {
                assert(src.rel.deep_view().take(n - 1) =~= src.rel.deep_view().drop_last());
            }
            push_part(&mut r, html_file_name(name.as_str()));
            r
        },
    }
}

/// Computes the mirrored path of a source file (see `mirror_path`).
pub fn mirrored_path(src: &SourceFile) -> (r: String)
    requires
        src.wf(),
    ensures
        r@ == mirror_path(src.rel.deep_view()),
{
    let n = src.rel.len();
    let mut parts = clone_parts(&src.rel, n - 1);
    proof {
        assert(src.rel.deep_view().take(n - 1) =~= src.rel.deep_view().drop_last());
    }
    push_part(&mut parts, html_file_name(src.rel[n - 1].as_str()));
    join_slash(&parts)
}

/// Computes the public URL path of a page (see `url_of`).
pub fn public_url(src: &SourceFile, slug: Option<&String>, base: &str) -> (r: String)
    requires
        src.wf(),
    ensures
        r@ == url_of(src.rel.deep_view(), match slug { Some(s) => Some(s@), None => None }, base@),
{
    let n = src.rel.len();
    let name = &src.rel[n - 1];
    let index = same_text(name.as_str(), "index.md");
    let root = join2(base, "/");
    match slug {
        Some(sl) if index => {
            let a = join2(root.as_str(), sl.as_str());
            join2(a.as_str(), "/index.html")
        },
        _ => {
            let p = mirrored_path(src);
            join2(root.as_str(), p.as_str())
        },
    }
}

/// What one successfully processed page contributes to the site artifacts.
#[derive(Debug, Clone)]
pub struct PageResult {
    pub title: String,
    /// Public URL path, under the site base path.
    pub url: String,
    /// Path of the digest copy below the output root, when it was written.
    pub copy_path: Option<String>,
    pub digest_description: Option<String>,
    /// Whether the digest copy was written.
    pub copied: bool,
}

/// Where and what a page is, before anything is rendered or written.
pub struct PageLayout {
    pub title: String,
    /// Output path components of the page below the output root.
    pub dest: Vec<String>,
    pub url: String,
    /// Output path components of the digest copy, when one is wanted.
    pub copy_path: Option<Vec<String>>,
}

/// Lays out a page: its title, output path, public URL, and where its digest
/// copy goes when the metadata (or the build-wide default) asks for one.
pub fn layout_page(src: &SourceFile, meta: &Meta, base: &str, copy_by_default: bool) -> (r: PageLayout)
    requires
        src.wf(),
    ensures
        r.title@ == page_title(opt_view(meta.title), src.name(), src.folder_view()),
        r.dest.deep_view() == dest_of(src.rel.deep_view(), opt_view(meta.page_slug)),
        r.url@ == url_of(src.rel.deep_view(), opt_view(meta.page_slug), base@),
        r.copy_path is Some <==> copy_wanted(meta.omit_digest, meta.generate_digest, copy_by_default),
        r.copy_path is Some ==> r.copy_path.unwrap().deep_view() == copy_path_of(r.dest.deep_view(), src.name()),
{
    let title = resolve_title(src, meta);
    let dest = destination(src, meta.page_slug.as_ref());
    let url = public_url(src, meta.page_slug.as_ref(), base);
    let copy_path = if should_copy_markdown(meta, copy_by_default) {
        let k = dest.len();
        assert(dest.deep_view().len() == dest.len());
        let mut p = clone_parts(&dest, k - 1);
        proof {
            assert(dest.deep_view().take(k - 1) =~= dest.deep_view().drop_last());
        }
        push_part(&mut p, src.rel[src.rel.len() - 1].clone());
        Some(p)
    } else {
        None
    };
    PageLayout { title, dest, url, copy_path }
}

/// The result of a page once it is written; `copy_written` says whether its
/// digest copy (if it wanted one) was written too.
pub fn page_result(layout: PageLayout, meta: &Meta, copy_written: bool) -> (r: PageResult)
    ensures
        r.title == layout.title,
        r.url == layout.url,
        r.copied == (copy_written && layout.copy_path is Some),
        r.copied ==> r.copy_path is Some && r.copy_path.unwrap()@ == slash_joined(layout.copy_path.unwrap().deep_view()),
        !r.copied ==> r.copy_path is None,
        r.digest_description == meta.digest_description,
{
    let PageLayout { title, dest: _, url, copy_path } = layout;
    let (copy_path, copied) = match copy_path {
        Some(p) if copy_written => (Some(join_slash(&p)), true),
        _ => (None, false),
    };
    PageResult { title, url, copy_path, digest_description: meta.digest_description.clone(), copied }
}

} // verus!
