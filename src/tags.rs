use vstd::prelude::*;
use crate::text::{chars_of, string_of};

verus! {

/// Marker whose content reaches the site but never the digest copy.
pub const EXCLUDE_FROM_DIGEST: &'static str = "exclude-from-llm-txt";

/// Marker whose content reaches the digest copy but never the site.
pub const ONLY_IN_DIGEST: &'static str = "only-in-llm-txt";

/// A name made of ASCII characters only.
pub open spec fn ascii_name(t: Seq<char>) -> bool {
    forall|k: int| 0 <= k < t.len() ==> (#[trigger] t[k] as u32) < 128
}

/// A character code folded for comparing a text with an ASCII marker name
/// without regard to case: ASCII letters go to lower case, and the two
/// characters whose simple case folding lands on an ASCII letter (KELVIN
/// SIGN on `k`, LATIN SMALL LETTER LONG S on `s`) go to that letter. No
/// other character folds onto an ASCII one, so for an ASCII name this is
/// full Unicode simple case folding.
pub open spec fn fold(c: char) -> u32 {
    let n = c as u32;
    if 65 <= n && n <= 90 {
        (n + 32) as u32
    } else if n == 0x212A {
        107
    } else if n == 0x17F {
        115
    } else {
        n
    }
}

/// `t` occurs at `i` in `s`, compared as `fold` has it.
pub open spec fn name_at(s: Seq<char>, i: int, t: Seq<char>) -> bool {
    &&& 0 <= i
    &&& i + t.len() <= s.len()
    &&& forall|k: int| 0 <= k < t.len() ==> fold(#[trigger] s[i + k]) == fold(t[k])
}

/// Index of the first `c` in `s` at or after `from`, or `s.len()` if there is none.
pub open spec fn find_char(s: Seq<char>, from: int, c: char) -> int
    decreases s.len() - from,
{
    if from < 0 || from >= s.len() {
        s.len() as int
    } else if s[from] == c {
        from
    } else {
        find_char(s, from + 1, c)
    }
}

/// A closing marker `</t>` starts at `i`.
pub open spec fn close_at(s: Seq<char>, i: int, t: Seq<char>) -> bool {
    &&& 0 <= i
    &&& i + t.len() + 3 <= s.len()
    &&& s[i] == '<'
    &&& s[i + 1] == '/'
    &&& name_at(s, i + 2, t)
    &&& s[i + t.len() + 2] == '>'
}

/// Index of the first closing marker of `t` at or after `from`, or `s.len()`.
pub open spec fn find_close(s: Seq<char>, from: int, t: Seq<char>) -> int
    decreases s.len() - from,
{
    if from < 0 || from >= s.len() {
        s.len() as int
    } else if close_at(s, from, t) {
        from
    } else {
        find_close(s, from + 1, t)
    }
}

/// Index of the `>` that ends an opening marker of `t` starting at `i`.
pub open spec fn open_end(s: Seq<char>, i: int, t: Seq<char>) -> int {
    find_char(s, i + 1 + t.len(), '>')
}

/// An opening marker `<t ...>` (any attributes, no `>` among them) starts at `i`.
pub open spec fn open_at(s: Seq<char>, i: int, t: Seq<char>) -> bool {
    &&& 0 <= i < s.len()
    &&& s[i] == '<'
    &&& name_at(s, i + 1, t)
    &&& open_end(s, i, t) < s.len()
}

/// Index of the first closing marker after the opening marker at `i`.
pub open spec fn span_close(s: Seq<char>, i: int, t: Seq<char>) -> int {
    find_close(s, open_end(s, i, t) + 1, t)
}

/// End (exclusive) of the span from the opening marker at `i` through
/// the first closing marker after it.
pub open spec fn span_end(s: Seq<char>, i: int, t: Seq<char>) -> int {
    span_close(s, i, t) + t.len() + 3
}

/// A span of `t` (opening marker, content, first closing marker) starts at `i`.
pub open spec fn span_at(s: Seq<char>, i: int, t: Seq<char>) -> bool {
    &&& open_at(s, i, t)
    &&& span_close(s, i, t) < s.len()
    &&& i < span_end(s, i, t) <= s.len()
}

/// What is left of `s` from `i` on once every span of `t` is taken out,
/// scanning from the left and resuming after each span.
pub open spec fn strip_spans(s: Seq<char>, t: Seq<char>, i: int) -> Seq<char>
    decreases s.len() - i,
{
    if i < 0 || i >= s.len() {
        Seq::empty()
    } else if span_at(s, i, t) {
        strip_spans(s, t, span_end(s, i, t))
    } else {
        seq![s[i]] + strip_spans(s, t, i + 1)
    }
}

/// What is left of `s` from `i` on once every opening marker of `t` is taken out.
pub open spec fn drop_opens(s: Seq<char>, t: Seq<char>, i: int) -> Seq<char>
    decreases s.len() - i,
{
    if i < 0 || i >= s.len() {
        Seq::empty()
    } else if open_at(s, i, t) && i < open_end(s, i, t) {
        drop_opens(s, t, open_end(s, i, t) + 1)
    } else {
        seq![s[i]] + drop_opens(s, t, i + 1)
    }
}

/// What is left of `s` from `i` on once every closing marker of `t` is taken out.
pub open spec fn drop_closes(s: Seq<char>, t: Seq<char>, i: int) -> Seq<char>
    decreases s.len() - i,
{
    if i < 0 || i >= s.len() {
        Seq::empty()
    } else if close_at(s, i, t) {
        drop_closes(s, t, i + t.len() + 3)
    } else {
        seq![s[i]] + drop_closes(s, t, i + 1)
    }
}

/// The text with every span of `t` removed, markers and content alike.
pub open spec fn without_spans(s: Seq<char>, t: Seq<char>) -> Seq<char> {
    strip_spans(s, t, 0)
}

/// The text with the markers of `t` removed and their content kept:
/// first every opening marker, then every closing marker of what remains.
pub open spec fn without_markers(s: Seq<char>, t: Seq<char>) -> Seq<char> {
    drop_closes(drop_opens(s, t, 0), t, 0)
}

fn fold_exec(c: char) -> (r: u32)
    ensures
        r == fold(c),
{
    let n = c as u32;
    if 65 <= n && n <= 90 {
        n + 32
    } else if n == 0x212A {
        107
    } else if n == 0x17F {
        115
    } else {
        n
    }
}

fn name_at_exec(s: &Vec<char>, i: usize, t: &Vec<char>) -> (r: bool)
    ensures
        r == name_at(s@, i as int, t@),
{
    if t.len() > s.len() || i > s.len() - t.len() {
        return false;
    }
    let mut k: usize = 0;
    while k < t.len()
        invariant
            i + t.len() <= s.len(),
            k <= t.len(),
            forall|j: int| 0 <= j < k ==> fold(#[trigger] s@[i + j]) == fold(t@[j]),
        decreases t.len() - k,
    {
        if fold_exec(s[i + k]) != fold_exec(t[k]) {
            return false;
        }
        k += 1;
    }
    true
}

fn find_char_exec(s: &Vec<char>, from: usize, c: char) -> (r: usize)
    ensures
        r as int == find_char(s@, from as int, c),
{
    let mut i = from;
    while i < s.len()
        invariant
            from <= i,
            find_char(s@, from as int, c) == find_char(s@, i as int, c),
        decreases s.len() - i,
    {
        if s[i] == c {
            return i;
        }
        i += 1;
    }
    s.len()
}

fn close_at_exec(s: &Vec<char>, i: usize, t: &Vec<char>) -> (r: bool)
    ensures
        r == close_at(s@, i as int, t@),
{
    if s.len() < 3 || t.len() > s.len() - 3 || i > s.len() - 3 - t.len() {
        return false;
    }
    s[i] == '<' && s[i + 1] == '/' && name_at_exec(s, i + 2, t) && s[i + t.len() + 2] == '>'
}

fn find_close_exec(s: &Vec<char>, from: usize, t: &Vec<char>) -> (r: usize)
    ensures
        r as int == find_close(s@, from as int, t@),
{
    let mut i = from;
    while i < s.len()
        invariant
            from <= i,
            find_close(s@, from as int, t@) == find_close(s@, i as int, t@),
        decreases s.len() - i,
    {
        if close_at_exec(s, i, t) {
            return i;
        }
        i += 1;
    }
    s.len()
}

/// The end of the opening marker starting at `i`, if one does.
fn open_at_exec(s: &Vec<char>, i: usize, t: &Vec<char>) -> (r: Option<usize>)
    requires
        i < s.len(),
    ensures
        r.is_some() == open_at(s@, i as int, t@),
        r.is_some() ==> r.unwrap() as int == open_end(s@, i as int, t@),
{
    if s[i] != '<' || !name_at_exec(s, i + 1, t) {
        return None;
    }
    let g = find_char_exec(s, i + 1 + t.len(), '>');
    if g < s.len() {
        Some(g)
    } else {
        None
    }
}

/// The end of the span starting at `i`, if one does.
fn span_at_exec(s: &Vec<char>, i: usize, t: &Vec<char>) -> (r: Option<usize>)
    requires
        i < s.len(),
    ensures
        r.is_some() == span_at(s@, i as int, t@),
        r.is_some() ==> r.unwrap() as int == span_end(s@, i as int, t@),
        r.is_some() ==> i < r.unwrap() <= s.len(),
{
    match open_at_exec(s, i, t) {
        None => None,
        Some(g) => {
            proof {
                lemma_find_char_bounds(s@, i + 1 + t@.len(), '>');
            }
            let c = find_close_exec(s, g + 1, t);
            proof {
                lemma_find_close_bounds(s@, g + 1, t@);
            }
            if c < s.len() {
                Some(c + t.len() + 3)
            } else {
                None
            }
        }
    }
}

proof fn lemma_find_char_bounds(s: Seq<char>, from: int, c: char)
    requires
        0 <= from,
    ensures
        find_char(s, from, c) == s.len() || (from <= find_char(s, from, c) < s.len() && s[find_char(s, from, c)] == c),
        forall|k: int| from <= k < find_char(s, from, c) ==> s[k] != c,
    decreases s.len() - from,
{
    if from < s.len() && s[from] != c {
        lemma_find_char_bounds(s, from + 1, c);
    }
}

proof fn lemma_find_close_bounds(s: Seq<char>, from: int, t: Seq<char>)
    requires
        0 <= from,
    ensures
        find_close(s, from, t) == s.len() || (from <= find_close(s, from, t) < s.len() && close_at(s, find_close(s, from, t), t)),
        forall|k: int| from <= k < find_close(s, from, t) ==> !close_at(s, k, t),
    decreases s.len() - from,
{
    if from < s.len() && !close_at(s, from, t) {
        lemma_find_close_bounds(s, from + 1, t);
    }
}

/// Removes every span of the marker `tag` from `md`: the opening marker
/// (attributes allowed), the content, and the first closing marker after it.
/// Names compare without regard to case; spans may cross lines.
/// An opening marker with no closing marker after it stays as it is.
/// Marker names are a fixed set of ASCII names.
pub fn remove_tag_and_contents(md: &str, tag: &str) -> (r: String)
    requires
        ascii_name(tag@),
    ensures
        r@ == without_spans(md@, tag@),
{
    let s = chars_of(md);
    let t = chars_of(tag);
    let mut out: Vec<char> = Vec::new();
    let mut i: usize = 0;
    while i < s.len()
        invariant
            i <= s.len(),
            out@ + strip_spans(s@, t@, i as int) == strip_spans(s@, t@, 0),
        decreases s.len() - i,
    {
        match span_at_exec(&s, i, &t) {
            Some(e) => {
                i = e;
            },
            None => {
                assert(out@.push(s@[i as int]) + strip_spans(s@, t@, i + 1) =~= out@ + strip_spans(s@, t@, i as int));
                out.push(s[i]);
                i += 1;
            },
        }
    }
    string_of(&out)
}

/// Removes the markers of `tag` from `md` and keeps what they enclose:
/// first every opening marker (attributes allowed), then every closing
/// marker of what remains. Names compare without regard to case. Marker
/// names are a fixed set of ASCII names.
pub fn remove_tag_only(md: &str, tag: &str) -> (r: String)
    requires
        ascii_name(tag@),
    ensures
        r@ == without_markers(md@, tag@),
{
    let s = chars_of(md);
    let t = chars_of(tag);
    let mut mid: Vec<char> = Vec::new();
    let mut i: usize = 0;
    while i < s.len()
        invariant
            i <= s.len(),
            mid@ + drop_opens(s@, t@, i as int) == drop_opens(s@, t@, 0),
        decreases s.len() - i,
    {
        match open_at_exec(&s, i, &t) {
            Some(g) if i < g => {
                i = g + 1;
            },
            _ => {
                assert(mid@.push(s@[i as int]) + drop_opens(s@, t@, i + 1) =~= mid@ + drop_opens(s@, t@, i as int));
                mid.push(s[i]);
                i += 1;
            },
        }
    }
    let mut out: Vec<char> = Vec::new();
    let mut j: usize = 0;
    while j < mid.len()
        invariant
            j <= mid.len(),
            mid@ == drop_opens(s@, t@, 0),
            out@ + drop_closes(mid@, t@, j as int) == drop_closes(mid@, t@, 0),
        decreases mid.len() - j,
    {
        if close_at_exec(&mid, j, &t) {
            j = j + t.len() + 3;
        } else {
            assert(out@.push(mid@[j as int]) + drop_closes(mid@, t@, j + 1) =~= out@ + drop_closes(mid@, t@, j as int));
            out.push(mid[j]);
            j += 1;
        }
    }
    string_of(&out)
}

/// The text has an opening marker of `t` somewhere.
pub open spec fn has_opening(s: Seq<char>, t: Seq<char>) -> bool {
    exists|i: int| #[trigger] open_at(s, i, t)
}

proof fn lemma_strip_unchanged_from(s: Seq<char>, t: Seq<char>, i: int)
    requires
        0 <= i <= s.len(),
        !has_opening(s, t),
    ensures
        strip_spans(s, t, i) == s.subrange(i, s.len() as int),
    decreases s.len() - i,
{
    if i < s.len() {
        assert(!open_at(s, i, t));
        lemma_strip_unchanged_from(s, t, i + 1);
        assert(seq![s[i]] + s.subrange(i + 1, s.len() as int) =~= s.subrange(i, s.len() as int));
    } else {
        assert(s.subrange(i, s.len() as int) =~= Seq::<char>::empty());
    }
}

/// Removing the spans of a marker that never opens in the text gives the text back.
pub proof fn lemma_absent_marker_keeps_text(s: Seq<char>, t: Seq<char>)
    requires
        !has_opening(s, t),
    ensures
        without_spans(s, t) == s,
{
    lemma_strip_unchanged_from(s, t, 0);
    assert(s.subrange(0, s.len() as int) =~= s);
}

/// Both fixed marker names are ASCII.
pub proof fn lemma_markers_ascii()
    ensures
        ascii_name(EXCLUDE_FROM_DIGEST@),
        ascii_name(ONLY_IN_DIGEST@),
{
    reveal_strlit("exclude-from-llm-txt");
    reveal_strlit("only-in-llm-txt");
}

/// The markdown that goes to the site: the digest-exclusion markers are
/// dropped (their content stays), then the digest-only spans go entirely.
pub fn filter_for_site(md: &str) -> (r: String)
    ensures
        r@ == without_spans(without_markers(md@, EXCLUDE_FROM_DIGEST@), ONLY_IN_DIGEST@),
{
    proof {
        lemma_markers_ascii();
    }
    let kept = remove_tag_only(md, EXCLUDE_FROM_DIGEST);
    remove_tag_and_contents(kept.as_str(), ONLY_IN_DIGEST)
}

/// The markdown that goes to the digest copy: the digest-exclusion spans go
/// entirely, then the digest-only markers are dropped (their content stays).
pub fn filter_for_digest(md: &str) -> (r: String)
    ensures
        r@ == without_markers(without_spans(md@, EXCLUDE_FROM_DIGEST@), ONLY_IN_DIGEST@),
{
    proof {
        lemma_markers_ascii();
    }
    let kept = remove_tag_and_contents(md, EXCLUDE_FROM_DIGEST);
    remove_tag_only(kept.as_str(), ONLY_IN_DIGEST)
}

/// A usable marker name: not empty, and free of `<`, `>` and `/`.
pub open spec fn tag_name(t: Seq<char>) -> bool {
    &&& t.len() > 0
    &&& forall|k: int| 0 <= k < t.len() ==> #[trigger] t[k] != '<' && t[k] != '>' && t[k] != '/'
}

/// An opening marker starts at `i`: `<`, the name, and a `>` somewhere after.
pub open spec fn opens_at(s: Seq<char>, i: int, t: Seq<char>) -> bool {
    &&& 0 <= i < s.len()
    &&& s[i] == '<'
    &&& name_at(s, i + 1, t)
    &&& exists|g: int| i + 1 + t.len() <= g < s.len() && #[trigger] s[g] == '>'
}

/// From `p` on, `s` holds the first `m` characters of `t` (compared as
/// `fold` has it).
pub open spec fn prefix_at(s: Seq<char>, p: int, m: int, t: Seq<char>) -> bool {
    &&& 0 <= p
    &&& 0 <= m <= t.len()
    &&& p + m <= s.len()
    &&& forall|k: int| 0 <= k < m ==> fold(#[trigger] s[p + k]) == fold(t[k])
}

/// From `p` on, `s` parts from the name `t` for good: after some proper
/// prefix of the name the text ends, or goes on with a character that is
/// neither `<` nor the next of the name.
pub open spec fn leaves_name(s: Seq<char>, p: int, t: Seq<char>) -> bool {
    exists|m: int| 0 <= m < t.len() && #[trigger] prefix_at(s, p, m, t)
        && (p + m == s.len() || (s[p + m] != '<' && fold(s[p + m]) != fold(t[m])))
}

/// From `p` on, `s` parts for good from `/` followed by the name and `>`.
pub open spec fn leaves_close(s: Seq<char>, p: int, t: Seq<char>) -> bool {
    ||| p >= s.len()
    ||| (s[p] != '/' && s[p] != '<')
    ||| (s[p] == '/' && leaves_name(s, p + 1, t))
    ||| (s[p] == '/' && prefix_at(s, p + 1, t.len() as int, t) && (p + 1 + t.len() == s.len()
        || (s[p + 1 + t.len()] != '>' && s[p + 1 + t.len()] != '<')))
}

/// The `<` at `i` cannot begin a marker of `t`, however much of the text
/// after it is taken out: what follows it parts for good from the name and
/// from `/` with the name before any other `<` comes.
pub open spec fn inert(s: Seq<char>, i: int, t: Seq<char>) -> bool {
    leaves_name(s, i + 1, t) && leaves_close(s, i + 1, t)
}

/// What a `<` at `i` may begin at a given level: at level 2 a marker of
/// either kind, at level 1 only a closing marker, at level 0 nothing.
pub open spec fn angle_ok(s: Seq<char>, i: int, t: Seq<char>, level: int) -> bool {
    ||| (level >= 2 && opens_at(s, i, t))
    ||| (level >= 1 && close_at(s, i, t))
    ||| inert(s, i, t)
}

/// Every `<` of the text is as `angle_ok` allows at that level.
pub open spec fn angles_ok(s: Seq<char>, t: Seq<char>, level: int) -> bool {
    forall|i: int| 0 <= i < s.len() && #[trigger] s[i] == '<' ==> angle_ok(s, i, t, level)
}

/// Every `<` of the text begins a marker of `t` or parts from it for good.
pub open spec fn angles_tame(s: Seq<char>, t: Seq<char>) -> bool {
    angles_ok(s, t, 2)
}

/// No marker of `t`, opening or closing, is left anywhere in the text.
pub open spec fn no_markers(s: Seq<char>, t: Seq<char>) -> bool {
    forall|i: int| 0 <= i < s.len() ==> !(#[trigger] open_at(s, i, t)) && !close_at(s, i, t)
}

proof fn lemma_fold_fixed(c: char, d: char)
    requires
        fold(c) == fold(d),
        d == '<' || d == '>' || d == '/',
    ensures
        c == d,
{
}

proof fn lemma_open_exists(s: Seq<char>, i: int, t: Seq<char>)
    requires
        0 <= i,
    ensures
        open_at(s, i, t) <==> opens_at(s, i, t),
        open_at(s, i, t) ==> i + 1 + t.len() <= open_end(s, i, t) < s.len() && s[open_end(s, i, t)] == '>',
{
    lemma_find_char_bounds(s, i + 1 + t.len(), '>');
    if opens_at(s, i, t) {
        let g = choose|g: int| i + 1 + t.len() <= g < s.len() && #[trigger] s[g] == '>';
        assert(open_end(s, i, t) <= g);
    }
    if open_at(s, i, t) {
        let g = open_end(s, i, t);
        assert(s[g] == '>');
    }
}

/// `a` from `p` and `b` from `q` agree on `m` characters.
pub open spec fn agree(a: Seq<char>, p: int, b: Seq<char>, q: int, m: int) -> bool {
    &&& 0 <= p
    &&& 0 <= q
    &&& 0 <= m
    &&& p + m <= a.len()
    &&& q + m <= b.len()
    &&& forall|k: int| 0 <= k < m ==> #[trigger] a[p + k] == b[q + k]
}

proof fn lemma_agree_name(a: Seq<char>, p: int, b: Seq<char>, q: int, m: int, d: int, t: Seq<char>)
    requires
        agree(a, p, b, q, m),
        0 <= d,
        d + t.len() <= m,
        name_at(b, q + d, t),
    ensures
        name_at(a, p + d, t),
{
    assert forall|k: int| 0 <= k < t.len() implies fold(#[trigger] a[p + d + k]) == fold(t[k]) by {
        assert(a[p + (d + k)] == b[q + (d + k)]);
        assert(fold(b[q + d + k]) == fold(t[k]));
    }
}

proof fn lemma_agree_close(a: Seq<char>, p: int, b: Seq<char>, q: int, m: int, t: Seq<char>)
    requires
        agree(a, p, b, q, m),
        t.len() + 3 <= m,
        close_at(b, q, t),
    ensures
        close_at(a, p, t),
{
    assert(a[p + 0] == b[q + 0]);
    assert(a[p + 1] == b[q + 1]);
    assert(a[p + (t.len() + 2)] == b[q + (t.len() + 2)]);
    lemma_agree_name(a, p, b, q, m, 2, t);
}

proof fn lemma_agree_opens(a: Seq<char>, p: int, b: Seq<char>, q: int, m: int, g: int, t: Seq<char>)
    requires
        agree(a, p, b, q, m),
        b[q] == '<',
        name_at(b, q + 1, t),
        q + 1 + t.len() <= g < q + m,
        b[g] == '>',
    ensures
        opens_at(a, p, t),
{
    assert(a[p + 0] == b[q + 0]);
    assert(a[p + (g - q)] == b[q + (g - q)]);
    lemma_agree_name(a, p, b, q, m, 1, t);
    assert(a[p + g - q] == '>');
}

/// The characters of a name prefix are not `<`.
proof fn lemma_prefix_no_angle(s: Seq<char>, p: int, m: int, t: Seq<char>)
    requires
        tag_name(t),
        prefix_at(s, p, m, t),
    ensures
        forall|k: int| 0 <= k < m ==> #[trigger] s[p + k] != '<',
{
    assert forall|k: int| 0 <= k < m implies #[trigger] s[p + k] != '<' by {
        assert(fold(s[p + k]) == fold(t[k]));
        if s[p + k] == '<' {
            lemma_fold_fixed(t[k], '<');
        }
    }
}

/// `a` from `p` agrees with `b` from `q` on `n` characters, and then
/// either both end or `b` has a `<`.
pub open spec fn agree_to_angle(a: Seq<char>, p: int, b: Seq<char>, q: int, n: int) -> bool {
    &&& agree(a, p, b, q, n)
    &&& n >= 1
    &&& ((q + n == b.len() && p + n == a.len()) || (q + n < b.len() && b[q + n] == '<'))
}

proof fn lemma_prefix_transfer(a: Seq<char>, p: int, b: Seq<char>, q: int, n: int, d: int, m: int, t: Seq<char>)
    requires
        tag_name(t),
        agree_to_angle(a, p, b, q, n),
        1 <= d,
        forall|j: int| 1 <= j < d ==> #[trigger] b[q + j] != '<',
        prefix_at(b, q + d, m, t),
    ensures
        prefix_at(a, p + d, m, t),
        q + d + m == b.len() ==> p + d + m == a.len(),
        q + d + m < b.len() && b[q + d + m] != '<' ==> q + d + m < q + n && a[p + d + m] == b[q + d + m],
        forall|j: int| 1 <= j < d + m ==> #[trigger] b[q + j] != '<',
        d + m <= n,
{
    lemma_prefix_no_angle(b, q + d, m, t);
    assert forall|j: int| 1 <= j < d + m implies #[trigger] b[q + j] != '<' by {
        if j >= d {
            assert(b[q + d + (j - d)] != '<');
        }
    }
    if n < d + m {
        if q + n < b.len() && b[q + n] == '<' {
            assert(b[q + n] != '<');
        }
    }
    assert forall|k: int| 0 <= k < m implies fold(#[trigger] a[p + d + k]) == fold(t[k]) by {
        assert(a[p + (d + k)] == b[q + (d + k)]);
        assert(fold(b[q + d + k]) == fold(t[k]));
    }
    if q + d + m < b.len() && b[q + d + m] != '<' {
        if n == d + m {
            assert(q + n == b.len() || b[q + n] == '<');
        }
        assert(a[p + (d + m)] == b[q + (d + m)]);
    }
}

proof fn lemma_leaves_name_transfer(a: Seq<char>, p: int, b: Seq<char>, q: int, n: int, d: int, t: Seq<char>)
    requires
        tag_name(t),
        agree_to_angle(a, p, b, q, n),
        1 <= d,
        forall|j: int| 1 <= j < d ==> #[trigger] b[q + j] != '<',
        leaves_name(b, q + d, t),
    ensures
        leaves_name(a, p + d, t),
{
    let m = choose|m: int| 0 <= m < t.len() && #[trigger] prefix_at(b, q + d, m, t)
        && (q + d + m == b.len() || (b[q + d + m] != '<' && fold(b[q + d + m]) != fold(t[m])));
    lemma_prefix_transfer(a, p, b, q, n, d, m, t);
    assert(prefix_at(a, p + d, m, t));
}

/// An inert `<` stays inert in a text that agrees with it up to the next `<`.
proof fn lemma_inert_transfer(a: Seq<char>, p: int, b: Seq<char>, q: int, n: int, t: Seq<char>)
    requires
        tag_name(t),
        agree_to_angle(a, p, b, q, n),
        inert(b, q, t),
    ensures
        inert(a, p, t),
{
    lemma_leaves_name_transfer(a, p, b, q, n, 1, t);
    let r = q + 1;
    if r >= b.len() {
        assert(p + 1 >= a.len());
    } else if b[r] != '/' && b[r] != '<' {
        if n == 1 {
            assert(q + n == b.len() || b[q + n] == '<');
        }
        assert(a[p + 1] == b[q + 1]);
    } else if b[r] == '/' {
        if n == 1 {
            assert(q + n == b.len() || b[q + n] == '<');
        }
        assert(a[p + 1] == b[q + 1]);
        assert forall|j: int| 1 <= j < 2 implies #[trigger] b[q + j] != '<' by {}
        if leaves_name(b, r + 1, t) {
            lemma_leaves_name_transfer(a, p, b, q, n, 2, t);
        } else {
            lemma_prefix_transfer(a, p, b, q, n, 2, t.len() as int, t);
        }
    }
}

/// The angle property carries over between two texts whose rests agree.
proof fn lemma_same_rest_ok(a: Seq<char>, p: int, b: Seq<char>, q: int, t: Seq<char>, level: int)
    requires
        tag_name(t),
        0 <= p < a.len(),
        0 <= q < b.len(),
        agree(a, p, b, q, b.len() - q),
        a.len() - p == b.len() - q,
        angle_ok(b, q, t, level),
    ensures
        angle_ok(a, p, t, level),
{
    let m = b.len() - q;
    if level >= 2 && opens_at(b, q, t) {
        let g = choose|g: int| q + 1 + t.len() <= g < b.len() && #[trigger] b[g] == '>';
        assert(b[q] == '<');
        lemma_agree_opens(a, p, b, q, m, g, t);
    } else if level >= 1 && close_at(b, q, t) {
        lemma_agree_close(a, p, b, q, m, t);
    } else {
        lemma_inert_transfer(a, p, b, q, m, t);
    }
}

proof fn lemma_cons_ok(c: char, w: Seq<char>, t: Seq<char>, level: int)
    requires
        tag_name(t),
        angles_ok(w, t, level),
        c == '<' ==> angle_ok(seq![c] + w, 0, t, level),
    ensures
        angles_ok(seq![c] + w, t, level),
{
    let a = seq![c] + w;
    assert forall|j: int| 0 <= j < a.len() && #[trigger] a[j] == '<' implies angle_ok(a, j, t, level) by {
        if j > 0 {
            assert(a[j] == w[j - 1]);
            assert(agree(a, j, w, j - 1, w.len() - (j - 1))) by {
                assert forall|k: int| 0 <= k < w.len() - (j - 1) implies #[trigger] a[j + k] == w[j - 1 + k] by {
                    assert(a[j + k] == w[j + k - 1]);
                }
            }
            lemma_same_rest_ok(a, j, w, j - 1, t, level);
        }
    }
}

proof fn lemma_angles_empty(t: Seq<char>, level: int)
    ensures
        angles_ok(Seq::<char>::empty(), t, level),
{
}

/// Characters from `i` up to `k` that begin no span come through unchanged.
proof fn lemma_strip_prefix(s: Seq<char>, t: Seq<char>, i: int, k: int)
    requires
        0 <= i <= k <= s.len(),
        forall|j: int| i <= j < k ==> !(#[trigger] span_at(s, j, t)),
    ensures
        strip_spans(s, t, i) == s.subrange(i, k) + strip_spans(s, t, k),
    decreases k - i,
{
    if i < k {
        assert(!span_at(s, i, t));
        lemma_strip_prefix(s, t, i + 1, k);
        assert(s.subrange(i, k) =~= seq![s[i]] + s.subrange(i + 1, k));
    } else {
        assert(s.subrange(i, k) =~= Seq::<char>::empty());
    }
}

proof fn lemma_opens_prefix(s: Seq<char>, t: Seq<char>, i: int, k: int)
    requires
        0 <= i <= k <= s.len(),
        forall|j: int| i <= j < k ==> !(#[trigger] open_at(s, j, t)),
    ensures
        drop_opens(s, t, i) == s.subrange(i, k) + drop_opens(s, t, k),
    decreases k - i,
{
    if i < k {
        assert(!open_at(s, i, t));
        lemma_opens_prefix(s, t, i + 1, k);
        assert(s.subrange(i, k) =~= seq![s[i]] + s.subrange(i + 1, k));
    } else {
        assert(s.subrange(i, k) =~= Seq::<char>::empty());
    }
}

proof fn lemma_closes_prefix(s: Seq<char>, t: Seq<char>, i: int, k: int)
    requires
        0 <= i <= k <= s.len(),
        forall|j: int| i <= j < k ==> !(#[trigger] close_at(s, j, t)),
    ensures
        drop_closes(s, t, i) == s.subrange(i, k) + drop_closes(s, t, k),
    decreases k - i,
{
    if i < k {
        assert(!close_at(s, i, t));
        lemma_closes_prefix(s, t, i + 1, k);
        assert(s.subrange(i, k) =~= seq![s[i]] + s.subrange(i + 1, k));
    } else {
        assert(s.subrange(i, k) =~= Seq::<char>::empty());
    }
}

proof fn lemma_agree_prefix(s: Seq<char>, i: int, k: int, rest: Seq<char>)
    requires
        0 <= i <= k <= s.len(),
    ensures
        agree(s.subrange(i, k) + rest, 0, s, i, k - i),
{
    let a = s.subrange(i, k) + rest;
    assert forall|d: int| 0 <= d < k - i implies #[trigger] a[0 + d] == s[i + d] by {
        assert(a[d] == s.subrange(i, k)[d]);
    }
}

proof fn lemma_find_char_at(s: Seq<char>, from: int, g: int, c: char)
    requires
        0 <= from <= g < s.len(),
        s[g] == c,
        forall|k: int| from <= k < g ==> s[k] != c,
    ensures
        find_char(s, from, c) == g,
    decreases g - from,
{
    if from < g {
        lemma_find_char_at(s, from + 1, g, c);
    }
}

proof fn lemma_close_has_no_angle(s: Seq<char>, i: int, t: Seq<char>)
    requires
        tag_name(t),
        close_at(s, i, t),
    ensures
        forall|j: int| i < j < i + t.len() + 3 ==> #[trigger] s[j] != '<',
{
    assert forall|j: int| i < j < i + t.len() + 3 implies #[trigger] s[j] != '<' by {
        if i + 2 <= j < i + 2 + t.len() {
            let k = j - i - 2;
            assert(fold(s[i + 2 + k]) == fold(t[k]));
            if s[j] == '<' {
                lemma_fold_fixed(t[k], '<');
            }
        }
    }
}

proof fn lemma_closes_quiet(v: Seq<char>, t: Seq<char>, i: int)
    requires
        tag_name(t),
        angles_ok(v, t, 1),
        0 <= i,
    ensures
        angles_ok(drop_closes(v, t, i), t, 0),
    decreases v.len() - i,
{
    if i >= v.len() {
        lemma_angles_empty(t, 0);
    } else if close_at(v, i, t) {
        lemma_closes_quiet(v, t, i + t.len() + 3);
    } else {
        let w = drop_closes(v, t, i + 1);
        lemma_closes_quiet(v, t, i + 1);
        if v[i] == '<' {
            assert(angle_ok(v, i, t, 1));
            let k = find_char(v, i + 1, '<');
            lemma_find_char_bounds(v, i + 1, '<');
            assert forall|j: int| i + 1 <= j < k implies !(#[trigger] close_at(v, j, t)) by {
                assert(v[j] != '<');
            }
            lemma_closes_prefix(v, t, i + 1, k);
            assert(seq![v[i]] + w =~= v.subrange(i, k) + drop_closes(v, t, k));
            lemma_agree_prefix(v, i, k, drop_closes(v, t, k));
            lemma_inert_transfer(seq![v[i]] + w, 0, v, i, k - i, t);
        }
        lemma_cons_ok(v[i], w, t, 0);
    }
}

proof fn lemma_opens_half(u: Seq<char>, t: Seq<char>, i: int)
    requires
        tag_name(t),
        angles_ok(u, t, 2),
        0 <= i,
    ensures
        angles_ok(drop_opens(u, t, i), t, 1),
    decreases u.len() - i,
{
    lemma_open_exists(u, i, t);
    if i >= u.len() {
        lemma_angles_empty(t, 1);
    } else if open_at(u, i, t) && i < open_end(u, i, t) {
        lemma_opens_half(u, t, open_end(u, i, t) + 1);
    } else {
        let w = drop_opens(u, t, i + 1);
        lemma_opens_half(u, t, i + 1);
        let out = seq![u[i]] + w;
        if u[i] == '<' {
            assert(angle_ok(u, i, t, 2));
            if close_at(u, i, t) {
                let k = i + t.len() + 3;
                lemma_close_has_no_angle(u, i, t);
                assert forall|j: int| i + 1 <= j < k implies !(#[trigger] open_at(u, j, t)) by {
                    assert(u[j] != '<');
                }
                lemma_opens_prefix(u, t, i + 1, k);
                assert(out =~= u.subrange(i, k) + drop_opens(u, t, k));
                lemma_agree_prefix(u, i, k, drop_opens(u, t, k));
                lemma_agree_close(out, 0, u, i, k - i, t);
            } else {
                assert(inert(u, i, t));
                let k = find_char(u, i + 1, '<');
                lemma_find_char_bounds(u, i + 1, '<');
                assert forall|j: int| i + 1 <= j < k implies !(#[trigger] open_at(u, j, t)) by {
                    assert(u[j] != '<');
                }
                lemma_opens_prefix(u, t, i + 1, k);
                assert(out =~= u.subrange(i, k) + drop_opens(u, t, k));
                lemma_agree_prefix(u, i, k, drop_opens(u, t, k));
                lemma_inert_transfer(out, 0, u, i, k - i, t);
            }
        }
        lemma_cons_ok(u[i], w, t, 1);
    }
}

proof fn lemma_strip_tame(s: Seq<char>, t: Seq<char>, i: int)
    requires
        tag_name(t),
        angles_ok(s, t, 2),
        0 <= i,
    ensures
        angles_ok(strip_spans(s, t, i), t, 2),
    decreases s.len() - i,
{
    if i >= s.len() {
        lemma_angles_empty(t, 2);
    } else if span_at(s, i, t) {
        lemma_strip_tame(s, t, span_end(s, i, t));
    } else {
        let w = strip_spans(s, t, i + 1);
        lemma_strip_tame(s, t, i + 1);
        let out = seq![s[i]] + w;
        if s[i] == '<' {
            assert(angle_ok(s, i, t, 2));
            if opens_at(s, i, t) {
                lemma_open_exists(s, i, t);
                let g = open_end(s, i, t);
                lemma_find_char_bounds(s, i + 1 + t.len(), '>');
                assert forall|j: int| i + 1 <= j < g + 1 implies !(#[trigger] span_at(s, j, t)) by {
                    if span_at(s, j, t) {
                        assert(s[j] == '<');
                        assert(j < g);
                        if j + 1 + t.len() > g {
                            let k = g - j - 1;
                            assert(fold(s[j + 1 + k]) == fold(t[k]));
                            lemma_fold_fixed(t[k], '>');
                        }
                        lemma_find_char_at(s, j + 1 + t.len(), g, '>');
                        assert(open_end(s, j, t) == g);
                        assert(span_close(s, j, t) == span_close(s, i, t));
                        assert(span_at(s, i, t));
                    }
                }
                lemma_strip_prefix(s, t, i + 1, g + 1);
                assert(out =~= s.subrange(i, g + 1) + strip_spans(s, t, g + 1));
                lemma_agree_prefix(s, i, g + 1, strip_spans(s, t, g + 1));
                lemma_agree_opens(out, 0, s, i, g + 1 - i, g, t);
            } else if close_at(s, i, t) {
                let k = i + t.len() + 3;
                lemma_close_has_no_angle(s, i, t);
                assert forall|j: int| i + 1 <= j < k implies !(#[trigger] span_at(s, j, t)) by {
                    assert(s[j] != '<');
                }
                lemma_strip_prefix(s, t, i + 1, k);
                assert(out =~= s.subrange(i, k) + strip_spans(s, t, k));
                lemma_agree_prefix(s, i, k, strip_spans(s, t, k));
                lemma_agree_close(out, 0, s, i, k - i, t);
            } else {
                assert(inert(s, i, t));
                let k = find_char(s, i + 1, '<');
                lemma_find_char_bounds(s, i + 1, '<');
                assert forall|j: int| i + 1 <= j < k implies !(#[trigger] span_at(s, j, t)) by {
                    assert(s[j] != '<');
                }
                lemma_strip_prefix(s, t, i + 1, k);
                assert(out =~= s.subrange(i, k) + strip_spans(s, t, k));
                lemma_agree_prefix(s, i, k, strip_spans(s, t, k));
                lemma_inert_transfer(out, 0, s, i, k - i, t);
            }
        }
        lemma_cons_ok(s[i], w, t, 2);
    }
}

proof fn lemma_quiet_no_markers(w: Seq<char>, t: Seq<char>)
    requires
        tag_name(t),
        angles_ok(w, t, 0),
    ensures
        no_markers(w, t),
{
    assert forall|i: int| 0 <= i < w.len() implies !(#[trigger] open_at(w, i, t)) && !close_at(w, i, t) by {
        if open_at(w, i, t) {
            assert(w[i] == '<');
            assert(angle_ok(w, i, t, 0));
            let m = choose|m: int| 0 <= m < t.len() && #[trigger] prefix_at(w, i + 1, m, t)
                && (i + 1 + m == w.len() || (w[i + 1 + m] != '<' && fold(w[i + 1 + m]) != fold(t[m])));
            assert(fold(w[i + 1 + m]) == fold(t[m]));
        }
        if close_at(w, i, t) {
            assert(w[i] == '<');
            assert(angle_ok(w, i, t, 0));
            if leaves_name(w, i + 2, t) {
                let m = choose|m: int| 0 <= m < t.len() && #[trigger] prefix_at(w, i + 2, m, t)
                    && (i + 2 + m == w.len() || (w[i + 2 + m] != '<' && fold(w[i + 2 + m]) != fold(t[m])));
                assert(fold(w[i + 2 + m]) == fold(t[m]));
            }
        }
    }
}

/// Taking out the spans of a marker and then its remaining markers leaves
/// no marker of it, opening or closing, provided every `<` of the text
/// begins a marker of that name or parts from it for good (see `inert`).
/// Without that, the removal can join pieces into a new marker: in
/// `<ta</tag>g>` the `<ta` runs into another `<`, and the result is `<tag>`.
pub proof fn lemma_markers_gone(s: Seq<char>, t: Seq<char>)
    requires
        tag_name(t),
        angles_tame(s, t),
    ensures
        no_markers(without_markers(without_spans(s, t), t), t),
{
    let a = without_spans(s, t);
    lemma_strip_tame(s, t, 0);
    lemma_opens_half(a, t, 0);
    lemma_closes_quiet(drop_opens(a, t, 0), t, 0);
    lemma_quiet_no_markers(without_markers(a, t), t);
}

proof fn lemma_no_opens_unchanged(s: Seq<char>, t: Seq<char>, i: int)
    requires
        0 <= i <= s.len(),
        no_markers(s, t),
    ensures
        drop_opens(s, t, i) == s.subrange(i, s.len() as int),
    decreases s.len() - i,
{
    if i < s.len() {
        assert(!open_at(s, i, t));
        lemma_no_opens_unchanged(s, t, i + 1);
        assert(seq![s[i]] + s.subrange(i + 1, s.len() as int) =~= s.subrange(i, s.len() as int));
    } else {
        assert(s.subrange(i, s.len() as int) =~= Seq::<char>::empty());
    }
}

proof fn lemma_no_closes_unchanged(s: Seq<char>, t: Seq<char>, i: int)
    requires
        0 <= i <= s.len(),
        no_markers(s, t),
    ensures
        drop_closes(s, t, i) == s.subrange(i, s.len() as int),
    decreases s.len() - i,
{
    if i < s.len() {
        assert(!open_at(s, i, t) && !close_at(s, i, t));
        lemma_no_closes_unchanged(s, t, i + 1);
        assert(seq![s[i]] + s.subrange(i + 1, s.len() as int) =~= s.subrange(i, s.len() as int));
    } else {
        assert(s.subrange(i, s.len() as int) =~= Seq::<char>::empty());
    }
}

/// Under the condition of `lemma_markers_gone`, the filtered text is left
/// as it is by either filter applied again.
pub proof fn lemma_filters_settle(s: Seq<char>, t: Seq<char>)
    requires
        tag_name(t),
        angles_tame(s, t),
    ensures
        without_spans(without_markers(without_spans(s, t), t), t) == without_markers(without_spans(s, t), t),
        without_markers(without_markers(without_spans(s, t), t), t) == without_markers(without_spans(s, t), t),
{
    let r = without_markers(without_spans(s, t), t);
    lemma_markers_gone(s, t);
    assert(!has_opening(r, t)) by {
        if has_opening(r, t) {
            let i = choose|i: int| #[trigger] open_at(r, i, t);
            assert(!open_at(r, i, t));
        }
    }
    lemma_absent_marker_keeps_text(r, t);
    lemma_no_opens_unchanged(r, t, 0);
    assert(r.subrange(0, r.len() as int) =~= r);
    lemma_no_closes_unchanged(r, t, 0);
}

} // verus!
