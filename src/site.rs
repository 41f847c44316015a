use vstd::prelude::*;
use crate::pages::{PageResult, SourceFile, mirror_path, mirrored_path};
use crate::text::{chars_of, string_of, join2};

verus! {

broadcast use vstd::seq_lib::group_to_multiset_ensures;

/// The page results among the outcomes of the per-file stage, in order.
pub open spec fn successes(s: Seq<Option<PageResult>>) -> Seq<PageResult>
    decreases s.len(),
{
    if s.len() == 0 {
        Seq::empty()
    } else {
        match s.last() {
            Some(r) => successes(s.drop_last()).push(r),
            None => successes(s.drop_last()),
        }
    }
}

/// Keeps the page results of the files that were processed; failures drop out.
pub fn collect_results(outcomes: Vec<Option<PageResult>>) -> (r: Vec<PageResult>)
    ensures
        r@ == successes(outcomes@),
{
    let ghost all = outcomes@;
    let mut r: Vec<PageResult> = Vec::new();
    for o in it: outcomes
        invariant
            it.seq() == all,
            r@ == successes(all.take(it.index() as int)),
    {
        proof {
            assert(all.take(it.index() + 1).drop_last() =~= all.take(it.index() as int));
        }
        if let Some(p) = o {
            r.push(p);
        }
    }
    proof {
        assert(all.take(all.len() as int) =~= all);
    }
    r
}

proof fn lemma_success_count(s: Seq<Option<PageResult>>, x: PageResult)
    ensures
        successes(s).to_multiset().count(x) == s.to_multiset().count(Some(x)),
    decreases s.len(),
{
    if s.len() == 0 {
        assert(successes(s).len() == 0);
        assert(successes(s).to_multiset().len() == 0);
        assert(s.to_multiset().len() == 0);
    } else {
        let init = s.drop_last();
        lemma_success_count(init, x);
        assert(s =~= init.push(s.last()));
        assert(s.to_multiset() =~= init.to_multiset().insert(s.last()));
        match s.last() {
            Some(p) => {
                assert(successes(s).to_multiset() =~= successes(init).to_multiset().insert(p));
            },
            None => {},
        }
    }
}

/// The per-file stage may finish its files in any order: outcomes that are
/// the same up to order give the same page results up to order.
pub proof fn lemma_results_order_free(a: Seq<Option<PageResult>>, b: Seq<Option<PageResult>>)
    requires
        a.to_multiset() == b.to_multiset(),
    ensures
        successes(a).to_multiset() == successes(b).to_multiset(),
{
    assert forall|x: PageResult| successes(a).to_multiset().count(x) == successes(b).to_multiset().count(x) by {
        lemma_success_count(a, x);
        lemma_success_count(b, x);
    }
    assert(successes(a).to_multiset() =~= successes(b).to_multiset());
}

/// The text without the `/` characters that end it.
pub open spec fn trim_end_slashes(s: Seq<char>) -> Seq<char>
    decreases s.len(),
{
    if s.len() > 0 && s.last() == '/' {
        trim_end_slashes(s.drop_last())
    } else {
        s
    }
}

/// Drops the `/` characters that end a domain.
pub fn trim_domain(domain: &str) -> (r: String)
    ensures
        r@ == trim_end_slashes(domain@),
{
    let s = chars_of(domain);
    let mut n: usize = s.len();
    assert(s@.take(n as int) =~= s@);
    while n > 0 && s[n - 1] == '/'
        invariant
            n <= s.len(),
            trim_end_slashes(s@) == trim_end_slashes(s@.take(n as int)),
        decreases n,
    {
        proof {
            assert(s@.take(n as int).drop_last() =~= s@.take(n - 1));
        }
        n -= 1;
    }
    let mut out: Vec<char> = Vec::new();
    let mut i: usize = 0;
    while i < n
        invariant
            n <= s.len(),
            i <= n,
            out@ == s@.take(i as int),
        decreases n - i,
    {
        proof {
            assert(s@.take(i + 1) =~= s@.take(i as int).push(s@[i as int]));
        }
        out.push(s[i]);
        i += 1;
    }
    proof {
        assert(s@ =~= domain@);
    }
    string_of(&out)
}

/// The sitemap URL of a source file: the domain without its trailing `/`,
/// the base path, then the mirrored path of the file.
pub open spec fn sitemap_url(domain: Seq<char>, base: Seq<char>, rel: Seq<Seq<char>>) -> Seq<char> {
    trim_end_slashes(domain) + base + "/"@ + mirror_path(rel)
}

/// The sitemap URLs of the input files, one per file and in input order,
/// whether or not a file's processing later succeeds.
pub fn sitemap_urls(files: &Vec<SourceFile>, domain: &str, base: &str) -> (r: Vec<String>)
    requires
        forall|i: int| 0 <= i < files.len() ==> (#[trigger] files@[i]).wf(),
    ensures
        r.len() == files.len(),
        forall|i: int| 0 <= i < files.len() ==> (#[trigger] r@[i])@ == sitemap_url(domain@, base@, files@[i].rel.deep_view()),
{
    let d = trim_domain(domain);
    let db = join2(d.as_str(), base);
    let root = join2(db.as_str(), "/");
    let mut r: Vec<String> = Vec::new();
    let mut i: usize = 0;
    while i < files.len()
        invariant
            i <= files.len(),
            r.len() == i,
            root@ == trim_end_slashes(domain@) + base@ + "/"@,
            forall|k: int| 0 <= k < files.len() ==> (#[trigger] files@[k]).wf(),
            forall|k: int| 0 <= k < i ==> (#[trigger] r@[k])@ == sitemap_url(domain@, base@, files@[k].rel.deep_view()),
        decreases files.len() - i,
    {
        let p = mirrored_path(&files[i]);
        r.push(join2(root.as_str(), p.as_str()));
        i += 1;
    }
    r
}

/// A link of the content index: the URL without the base path and the `/`
/// after it, when it starts with them.
pub open spec fn index_link(url: Seq<char>, base: Seq<char>) -> Seq<char> {
    let prefix = base + "/"@;
    if prefix.len() <= url.len() && url.take(prefix.len() as int) == prefix {
        url.skip(prefix.len() as int)
    } else {
        url
    }
}

/// Strips the base path and the `/` after it from the front of a URL.
pub fn strip_base(url: &str, base: &str) -> (r: String)
    ensures
        r@ == index_link(url@, base@),
{
    let u = chars_of(url);
    let prefix_s = join2(base, "/");
    let p = chars_of(prefix_s.as_str());
    if p.len() > u.len() {
        return url.to_owned();
    }
    let mut i: usize = 0;
    while i < p.len()
        invariant
            u@ == url@,
            p@ == base@ + "/"@,
            p.len() <= u.len(),
            i <= p.len(),
            forall|k: int| 0 <= k < i ==> u@[k] == p@[k],
        decreases p.len() - i,
    {
        if u[i] != p[i] {
            proof {
                assert(u@.take(p.len() as int)[i as int] != p@[i as int]);
                assert(u@.take(p.len() as int) != p@);
            }
            return url.to_owned();
        }
        i += 1;
    }
    assert(u@.take(p.len() as int) =~= p@);
    let mut out: Vec<char> = Vec::new();
    let mut j: usize = p.len();
    while j < u.len()
        invariant
            p.len() <= j <= u.len(),
            out@ == u@.subrange(p.len() as int, j as int),
        decreases u.len() - j,
    {
        proof {
            assert(u@.subrange(p.len() as int, j + 1) =~= u@.subrange(p.len() as int, j as int).push(u@[j as int]));
        }
        out.push(u[j]);
        j += 1;
    }
    assert(out@ =~= u@.skip(p.len() as int));
    string_of(&out)
}

/// The `(title, link)` entries of the content index, one per page result,
/// in order, with the base path taken off each link.
pub fn index_entries(results: &Vec<PageResult>, base: &str) -> (r: Vec<(String, String)>)
    ensures
        r.len() == results.len(),
        forall|i: int| 0 <= i < results.len() ==> (#[trigger] r@[i]).0 == results@[i].title
            && r@[i].1@ == index_link(results@[i].url@, base@),
{
    let mut r: Vec<(String, String)> = Vec::new();
    let mut i: usize = 0;
    while i < results.len()
        invariant
            i <= results.len(),
            r.len() == i,
            forall|k: int| 0 <= k < i ==> (#[trigger] r@[k]).0 == results@[k].title
                && r@[k].1@ == index_link(results@[k].url@, base@),
        decreases results.len() - i,
    {
        let t = results[i].title.clone();
        let l = strip_base(results[i].url.as_str(), base);
        r.push((t, l));
        i += 1;
    }
    r
}

} // verus!
