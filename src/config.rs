use vstd::prelude::*;
use crate::text::{chars_of, string_of};

verus! {

/// Build configuration, from the command line or from a configuration file.
#[derive(Debug, Clone)]
pub struct Config {
    /// Content source directory.
    pub base: Option<String>,
    /// Templates directory.
    pub templates: Option<String>,
    /// Output directory.
    pub dist: Option<String>,
    /// Domain of the sitemap and digest URLs.
    pub domain: Option<String>,
    /// Prefix of the public URL paths.
    pub base_path: Option<String>,
    /// Path of a configuration file.
    pub config: Option<String>,
    /// Dump the syntax definitions and stop.
    pub dump: bool,
    /// Comma-separated fence languages that are never highlighted.
    pub omit_languages: Option<String>,
    /// Turn code highlighting off.
    pub no_syntax_highlighting: bool,
}

/// The first value when there is one, else the second.
pub open spec fn first_of<T>(a: Option<T>, b: Option<T>) -> Option<T> {
    if a is Some { a } else { b }
}

fn either(a: Option<String>, b: Option<String>) -> (r: Option<String>)
    ensures
        r == first_of(a, b),
{
    match a {
        Some(x) => Some(x),
        None => b,
    }
}

impl Config {
    /// Combines two configurations: each value of `self` wins over the one
    /// of `other`, and a flag is set when either sets it.
    pub fn merge(self, other: Self) -> (r: Self)
        ensures
            r.base == first_of(self.base, other.base),
            r.templates == first_of(self.templates, other.templates),
            r.dist == first_of(self.dist, other.dist),
            r.domain == first_of(self.domain, other.domain),
            r.base_path == first_of(self.base_path, other.base_path),
            r.config == first_of(self.config, other.config),
            r.dump == (self.dump || other.dump),
            r.omit_languages == first_of(self.omit_languages, other.omit_languages),
            r.no_syntax_highlighting == (self.no_syntax_highlighting || other.no_syntax_highlighting),
    {
        Config {
            base: either(self.base, other.base),
            templates: either(self.templates, other.templates),
            dist: either(self.dist, other.dist),
            domain: either(self.domain, other.domain),
            base_path: either(self.base_path, other.base_path),
            config: either(self.config, other.config),
            dump: self.dump || other.dump,
            omit_languages: either(self.omit_languages, other.omit_languages),
            no_syntax_highlighting: self.no_syntax_highlighting || other.no_syntax_highlighting,
        }
    }
}

/// The language left unhighlighted when the configuration names none.
pub const DEFAULT_OMITTED_LANGUAGE: &'static str = "mermaid";

/// The non-empty pieces of `s` between commas, from position `i` on, where
/// `cur` is the piece read so far.
pub open spec fn pieces_from(s: Seq<char>, i: int, cur: Seq<char>) -> Seq<Seq<char>>
    decreases s.len() - i,
{
    if i < 0 || i >= s.len() {
        if cur.len() > 0 { seq![cur] } else { Seq::empty() }
    } else if s[i] == ',' {
        (if cur.len() > 0 { seq![cur] } else { Seq::empty() }) + pieces_from(s, i + 1, Seq::empty())
    } else {
        pieces_from(s, i + 1, cur.push(s[i]))
    }
}

/// The languages never highlighted: the non-empty comma-separated names of
/// the setting, or `mermaid` when there is no setting.
pub open spec fn omitted_languages(setting: Option<Seq<char>>) -> Seq<Seq<char>> {
    match setting {
        Some(s) => pieces_from(s, 0, Seq::empty()),
        None => seq![DEFAULT_OMITTED_LANGUAGE@],
    }
}

/// Reads the list of languages never highlighted (see `omitted_languages`).
pub fn omit_language_list(setting: Option<&str>) -> (r: Vec<String>)
    ensures
        r.deep_view() == omitted_languages(match setting { Some(s) => Some(s@), None => None }),
{
    match setting {
        None => {
            let r = vec![DEFAULT_OMITTED_LANGUAGE.to_owned()];
            assert(r.deep_view() =~= seq![DEFAULT_OMITTED_LANGUAGE@]);
            r
        },
        Some(text) => {
            let s = chars_of(text);
            let mut out: Vec<String> = Vec::new();
            let mut cur: Vec<char> = Vec::new();
            let mut i: usize = 0;
            while i < s.len()
                invariant
                    s@ == text@,
                    i <= s.len(),
                    out.deep_view() + pieces_from(s@, i as int, cur@) == pieces_from(s@, 0, Seq::empty()),
                decreases s.len() - i,
            {
                if s[i] == ',' {
                    let ghost before = out.deep_view();
                    if cur.len() > 0 {
                        out.push(string_of(&cur));
                        assert(out.deep_view() =~= before + seq![cur@]);
                    }
                    assert(out.deep_view() + pieces_from(s@, i + 1, Seq::empty()) =~= before + pieces_from(s@, i as int, cur@));
                    cur = Vec::new();
                } else {
                    cur.push(s[i]);
                }
                i += 1;
            }
            let ghost before = out.deep_view();
            if cur.len() > 0 {
                out.push(string_of(&cur));
                assert(out.deep_view() =~= before + seq![cur@]);
            }
            assert(out.deep_view() =~= pieces_from(s@, 0, Seq::empty()));
            out
        },
    }
}

} // verus!
