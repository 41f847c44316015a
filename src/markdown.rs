use vstd::prelude::*;
use pulldown_cmark::{CodeBlockKind, Event, Options, Parser, Tag, TagEnd};
use syntect::highlighting::Theme;
use syntect::parsing::{SyntaxReference, SyntaxSet};
use crate::text::{chars_of, string_of, same_text};

verus! {

#[verifier::external_type_specification]
#[verifier::external_body]
pub struct ExSyntaxSet(SyntaxSet);

#[verifier::external_type_specification]
#[verifier::external_body]
pub struct ExSyntaxReference(SyntaxReference);

#[verifier::external_type_specification]
#[verifier::external_body]
pub struct ExTheme(Theme);

/// What the code-block handling needs to know of a markdown event.
pub enum EventClass {
    /// Start of a fenced code block, with the language its fence declares.
    FenceStart { lang: String },
    /// End of a code block.
    CodeEnd,
    /// A text node.
    Text { text: String },
    /// Anything else.
    Other,
}

/// One step of rendering: keep an event as it is, or replace a whole
/// fenced code block by its highlighted form.
pub enum Step {
    Keep { index: usize },
    /// The block runs from event `first` through event `last`.
    Highlight { lang: String, code: String, first: usize, last: usize },
}

pub enum StepSpec {
    Keep(int),
    Highlight(Seq<char>, Seq<char>, int, int),
}

impl Step {
    pub open spec fn view(&self) -> StepSpec {
        match self {
            Step::Keep { index } => StepSpec::Keep(*index as int),
            Step::Highlight { lang, code, first, last } => StepSpec::Highlight(lang@, code@, *first as int, *last as int),
        }
    }
}

/// A fenced code block that is open: its language, the code so far, and
/// the index of its first event.
pub struct OpenBlock {
    pub lang: Seq<char>,
    pub code: Seq<char>,
    pub first: int,
}

/// A fence is intercepted when highlighting is on and its language is not omitted.
pub open spec fn intercepts(lang: Seq<char>, highlight: bool, omit: Seq<Seq<char>>) -> bool {
    highlight && !omit.contains(lang)
}

/// The rendering steps for the events from `i` on. An intercepted fenced
/// block collects its text events and becomes one highlight step, ending
/// at its end event (or at the last event when it has none); every other
/// event is kept.
pub open spec fn plan_from(c: Seq<EventClass>, i: int, highlight: bool, omit: Seq<Seq<char>>, open: Option<OpenBlock>) -> Seq<StepSpec>
    decreases c.len() - i,
{
    if i < 0 || i >= c.len() {
        match open {
            Some(b) => seq![StepSpec::Highlight(b.lang, b.code, b.first, c.len() - 1)],
            None => Seq::empty(),
        }
    } else {
        match open {
            None => match c[i] {
                EventClass::FenceStart { lang } if intercepts(lang@, highlight, omit) =>
                    plan_from(c, i + 1, highlight, omit, Some(OpenBlock { lang: lang@, code: Seq::empty(), first: i })),
                _ => seq![StepSpec::Keep(i)] + plan_from(c, i + 1, highlight, omit, None),
            },
            Some(b) => match c[i] {
                EventClass::CodeEnd => seq![StepSpec::Highlight(b.lang, b.code, b.first, i)]
                    + plan_from(c, i + 1, highlight, omit, None),
                EventClass::Text { text } =>
                    plan_from(c, i + 1, highlight, omit, Some(OpenBlock { lang: b.lang, code: b.code + text@, first: b.first })),
                _ => plan_from(c, i + 1, highlight, omit, Some(b)),
            },
        }
    }
}

/// The rendering steps of a whole event stream.
pub open spec fn plan_of(c: Seq<EventClass>, highlight: bool, omit: Seq<Seq<char>>) -> Seq<StepSpec> {
    plan_from(c, 0, highlight, omit, None)
}

/// The events a step refers to lie among the `n` events of the stream.
pub open spec fn step_in_range(s: StepSpec, n: int) -> bool {
    match s {
        StepSpec::Keep(i) => 0 <= i < n,
        StepSpec::Highlight(_, _, first, last) => 0 <= first <= last < n,
    }
}

pub open spec fn steps_view(s: Seq<Step>) -> Seq<StepSpec> {
    s.map_values(|x: Step| x.view())
}

fn omitted(lang: &String, omit: &Vec<String>) -> (r: bool)
    ensures
        r == omit.deep_view().contains(lang@),
{
    let mut i: usize = 0;
    while i < omit.len()
        invariant
            i <= omit.len(),
            forall|k: int| 0 <= k < i ==> omit.deep_view()[k] != lang@,
        decreases omit.len() - i,
    {
        if same_text(omit[i].as_str(), lang.as_str()) {
            assert(omit.deep_view()[i as int] == lang@);
            return true;
        }
        i += 1;
    }
    false
}

fn push_step(steps: &mut Vec<Step>, s: Step)
    ensures
        final(steps)@ == old(steps)@.push(s),
        steps_view(final(steps)@) == steps_view(old(steps)@).push(s.view()),
{
    steps.push(s);
    proof {
        assert(steps_view(final(steps)@) =~= steps_view(old(steps)@).push(s.view()));
    }
}

/// Decides how each event of a stream is rendered (see `plan_from`).
pub fn plan_code_blocks(classes: &Vec<EventClass>, highlight: bool, omit: &Vec<String>) -> (r: Vec<Step>)
    ensures
        steps_view(r@) == plan_of(classes@, highlight, omit.deep_view()),
        forall|k: int| 0 <= k < r.len() ==> step_in_range((#[trigger] r@[k]).view(), classes.len() as int),
{
    let ghost c = classes@;
    let ghost o = omit.deep_view();
    let mut steps: Vec<Step> = Vec::new();
    let mut open: Option<(String, String, usize)> = None;
    let mut i: usize = 0;
    while i < classes.len()
        invariant
            c == classes@,
            o == omit.deep_view(),
            i <= classes.len(),
            open matches Some(b) ==> b.2 < i,
            forall|k: int| 0 <= k < steps.len() ==> step_in_range((#[trigger] steps@[k]).view(), classes.len() as int),
            steps_view(steps@) + plan_from(c, i as int, highlight, o, match open {
                Some(b) => Some(OpenBlock { lang: b.0@, code: b.1@, first: b.2 as int }),
                None => None,
            }) == plan_of(c, highlight, o),
        decreases classes.len() - i,
    {
        let ghost before = steps_view(steps@);
        match open {
            None => {
                match &classes[i] {
                    EventClass::FenceStart { lang } => {
                        if highlight && !omitted(lang, omit) {
                            open = Some((lang.clone(), String::new(), i));
                        } else {
                            push_step(&mut steps, Step::Keep { index: i });
                            proof {
                                assert(before.push(StepSpec::Keep(i as int)) + plan_from(c, i + 1, highlight, o, None)
                                    =~= before + (seq![StepSpec::Keep(i as int)] + plan_from(c, i + 1, highlight, o, None)));
                            }
                        }
                    },
                    _ => {
                        push_step(&mut steps, Step::Keep { index: i });
                        proof {
                            assert(before.push(StepSpec::Keep(i as int)) + plan_from(c, i + 1, highlight, o, None)
                                =~= before + (seq![StepSpec::Keep(i as int)] + plan_from(c, i + 1, highlight, o, None)));
                        }
                    },
                }
            },
            Some((lang, mut code, first)) => {
                match &classes[i] {
                    EventClass::CodeEnd => {
                        let ghost st = StepSpec::Highlight(lang@, code@, first as int, i as int);
                        push_step(&mut steps, Step::Highlight { lang, code, first, last: i });
                        proof {
                            assert(before.push(st) + plan_from(c, i + 1, highlight, o, None)
                                =~= before + (seq![st] + plan_from(c, i + 1, highlight, o, None)));
                        }
                        open = None;
                    },
                    EventClass::Text { text } => {
                        code.append(text.as_str());
                        open = Some((lang, code, first));
                    },
                    _ => {
                        open = Some((lang, code, first));
                    },
                }
            },
        }
        i += 1;
    }
    match open {
        Some((lang, code, first)) => {
            push_step(&mut steps, Step::Highlight { lang, code, first, last: i - 1 });
        },
        None => {},
    }
    assert(forall|k: int| 0 <= k < steps.len() ==> step_in_range((#[trigger] steps@[k]).view(), classes.len() as int));
    steps
}

/// No fenced code block starts in the events from `i` on.
pub open spec fn no_fence_from(c: Seq<EventClass>, i: int) -> bool {
    forall|k: int| i <= k < c.len() ==> !(#[trigger] c[k] is FenceStart)
}

/// Every event from `i` on is kept.
pub open spec fn keep_all_from(c: Seq<EventClass>, i: int) -> Seq<StepSpec>
    decreases c.len() - i,
{
    if i < 0 || i >= c.len() {
        Seq::empty()
    } else {
        seq![StepSpec::Keep(i)] + keep_all_from(c, i + 1)
    }
}

proof fn lemma_plan_keeps_all(c: Seq<EventClass>, i: int, highlight: bool, omit: Seq<Seq<char>>)
    requires
        0 <= i,
        highlight ==> no_fence_from(c, i),
    ensures
        plan_from(c, i, highlight, omit, None) == keep_all_from(c, i),
    decreases c.len() - i,
{
    if i < c.len() {
        lemma_plan_keeps_all(c, i + 1, highlight, omit);
    }
}

/// An event stream with no fenced code block is rendered the same way with
/// highlighting on or off: every event is kept as it is.
pub proof fn lemma_no_fence_highlight_irrelevant(c: Seq<EventClass>, omit: Seq<Seq<char>>)
    requires
        no_fence_from(c, 0),
    ensures
        plan_of(c, true, omit) == plan_of(c, false, omit),
        plan_of(c, true, omit) == keep_all_from(c, 0),
{
    lemma_plan_keeps_all(c, 0, true, omit);
    lemma_plan_keeps_all(c, 0, false, omit);
}

/// Which extensions the markdown parser runs with.
#[derive(Clone, Copy, Debug)]
pub struct MarkdownOptions {
    pub tables: bool,
    pub footnotes: bool,
    pub strikethrough: bool,
    pub tasklists: bool,
}

impl MarkdownOptions {
    pub open spec fn standard_spec() -> MarkdownOptions {
        MarkdownOptions { tables: true, footnotes: true, strikethrough: true, tasklists: true }
    }

    /// Tables, footnotes, strikethrough and task lists: the extensions pages are rendered with.
    pub fn standard() -> (r: MarkdownOptions)
        ensures
            r == Self::standard_spec(),
    {
        MarkdownOptions { tables: true, footnotes: true, strikethrough: true, tasklists: true }
    }
}

/// One piece of what is rendered: an event of the parsed text, by its
/// index, or raw HTML.
pub enum RenderItem {
    Event { index: usize },
    Html { html: String },
}

pub enum ItemSpec {
    Event(int),
    Html(Seq<char>),
}

impl RenderItem {
    pub open spec fn view(&self) -> ItemSpec {
        match self {
            RenderItem::Event { index } => ItemSpec::Event(*index as int),
            RenderItem::Html { html } => ItemSpec::Html(html@),
        }
    }
}

/// An item that names an event names one of the `n` events of the stream.
pub open spec fn item_in_range(it: ItemSpec, n: int) -> bool {
    match it {
        ItemSpec::Event(i) => 0 <= i < n,
        ItemSpec::Html(_) => true,
    }
}

pub open spec fn items_view(s: Seq<RenderItem>) -> Seq<ItemSpec> {
    s.map_values(|x: RenderItem| x.view())
}

/// The events pulldown_cmark's parser yields for `md`, told apart as far as
/// code blocks go.
pub uninterp spec fn cmark_classes(md: Seq<char>, opts: MarkdownOptions) -> Seq<EventClass>;

/// The HTML pulldown_cmark's `push_html` writes for a list of events, each
/// an event of those parsed from `md` (by index) or a raw HTML event.
pub uninterp spec fn cmark_render(md: Seq<char>, opts: MarkdownOptions, items: Seq<ItemSpec>) -> Seq<char>;

/// Every event of a stream of `n`, in order.
pub open spec fn all_events(n: int) -> Seq<ItemSpec> {
    Seq::new(n as nat, |i: int| ItemSpec::Event(i))
}

/// pulldown_cmark's own HTML of `md`: all of its events, as parsed.
pub open spec fn cmark_html(md: Seq<char>, opts: MarkdownOptions) -> Seq<char> {
    cmark_render(md, opts, all_events(cmark_classes(md, opts).len() as int))
}

/// Relies on pulldown_cmark's `Parser::new_ext`, run with the given
/// extensions, and tells each `Event` apart: a fenced code block's start
/// (with its language), a code block's end, text, and the rest. The parse
/// depends on the text and the extensions alone.
#[verifier::external_body]
fn markdown_classes(md: &str, opts: MarkdownOptions) -> (r: Vec<EventClass>)
    ensures
        r@ == cmark_classes(md@, opts),
{
    let mut o = Options::empty();
    o.set(Options::ENABLE_TABLES, opts.tables);
    o.set(Options::ENABLE_FOOTNOTES, opts.footnotes);
    o.set(Options::ENABLE_STRIKETHROUGH, opts.strikethrough);
    o.set(Options::ENABLE_TASKLISTS, opts.tasklists);
    Parser::new_ext(md, o).map(|e| match e {
        Event::Start(Tag::CodeBlock(CodeBlockKind::Fenced(lang))) => EventClass::FenceStart { lang: lang.to_string() },
        Event::End(TagEnd::CodeBlock) => EventClass::CodeEnd,
        Event::Text(text) => EventClass::Text { text: text.to_string() },
        _ => EventClass::Other,
    }).collect()
}

/// Relies on pulldown_cmark's `Parser::new_ext` (the same parse as
/// `markdown_classes`) and `html::push_html`: the HTML of the items, each a
/// clone of a parsed event or an `Event::Html`.
#[verifier::external_body]
fn render_items(md: &str, opts: MarkdownOptions, items: &Vec<RenderItem>) -> (r: String)
    requires
        forall|k: int| 0 <= k < items.len() ==> item_in_range((#[trigger] items@[k]).view(), cmark_classes(md@, opts).len() as int),
    ensures
        r@ == cmark_render(md@, opts, items_view(items@)),
{
    let mut o = Options::empty();
    o.set(Options::ENABLE_TABLES, opts.tables);
    o.set(Options::ENABLE_FOOTNOTES, opts.footnotes);
    o.set(Options::ENABLE_STRIKETHROUGH, opts.strikethrough);
    o.set(Options::ENABLE_TASKLISTS, opts.tasklists);
    let events: Vec<Event> = Parser::new_ext(md, o).collect();
    let mut out = String::new();
    pulldown_cmark::html::push_html(&mut out, items.iter().map(|item| match item {
        RenderItem::Event { index } => events[*index].clone(),
        RenderItem::Html { html } => Event::Html(html.clone().into()),
    }));
    out
}

/// Relies on syntect's `SyntaxSet::find_syntax_by_token`: the syntax for a
/// fence language, by file extension and then by name.
#[verifier::external_body]
fn syntax_for_token<'s>(ps: &'s SyntaxSet, token: &str) -> (r: Option<&'s SyntaxReference>) {
    ps.find_syntax_by_token(token)
}

/// Relies on syntect's `SyntaxSet::find_syntax_by_name`: the syntax of that name.
#[verifier::external_body]
fn syntax_named<'s>(ps: &'s SyntaxSet, name: &str) -> (r: Option<&'s SyntaxReference>) {
    ps.find_syntax_by_name(name)
}

/// Relies on syntect's `html::highlighted_html_for_string`: a self-contained
/// highlighted HTML fragment of the code.
#[verifier::external_body]
fn highlighted_html(code: &str, ps: &SyntaxSet, syntax: &SyntaxReference, theme: &Theme) -> (r: Option<String>) {
    syntect::html::highlighted_html_for_string(code, ps, syntax, theme).ok()
}

/// The text without one trailing newline, when it ends with one.
pub open spec fn without_final_newline(s: Seq<char>) -> Seq<char> {
    if s.len() > 0 && s.last() == '\n' { s.drop_last() } else { s }
}

/// Removes one trailing newline, when there is one.
pub fn trim_final_newline(s: &str) -> (r: String)
    ensures
        r@ == without_final_newline(s@),
{
    let mut v = chars_of(s);
    if v.len() > 0 && v[v.len() - 1] == '\n' {
        v.pop();
    }
    string_of(&v)
}

/// Name of the syntax used when a fence's language is unknown.
pub const PLAIN_TEXT_SYNTAX: &'static str = "Plain Text";

/// The syntax a block is highlighted with: the one found for its language
/// when there is one, else plain text (when the set has it).
pub fn choose_syntax<'s>(by_token: Option<&'s SyntaxReference>, plain: Option<&'s SyntaxReference>) -> (r: Option<&'s SyntaxReference>)
    ensures
        r == (if by_token is Some { by_token } else { plain }),
{
    match by_token {
        Some(s) => Some(s),
        None => plain,
    }
}

/// Highlights a code block with the syntax `choose_syntax` picks for `lang`.
/// `None` when no syntax applies or the highlighter fails.
pub fn highlight_block(ps: &SyntaxSet, theme: &Theme, lang: &str, code: &str) -> (r: Option<String>) {
    let syntax = choose_syntax(syntax_for_token(ps, lang), syntax_named(ps, PLAIN_TEXT_SYNTAX));
    match syntax {
        Some(s) => highlighted_html(code, ps, s, theme),
        None => None,
    }
}

/// What a step of the plan renders as: a kept event; a highlighted block as
/// the highlighter's fragment `out` less one trailing newline; a block that
/// could not be highlighted as its own events.
pub open spec fn step_items(s: StepSpec, out: Option<Seq<char>>) -> Seq<ItemSpec> {
    match s {
        StepSpec::Keep(i) => seq![ItemSpec::Event(i)],
        StepSpec::Highlight(_, _, first, last) => match out {
            Some(h) => seq![ItemSpec::Html(without_final_newline(h))],
            None => Seq::new((last - first + 1) as nat, |j: int| ItemSpec::Event(first + j)),
        },
    }
}

/// What the first `n` steps of the plan render as, given the highlighter's
/// outcome for each step.
pub open spec fn items_upto(plan: Seq<StepSpec>, outs: Seq<Option<Seq<char>>>, n: int) -> Seq<ItemSpec>
    decreases n,
{
    if n <= 0 {
        Seq::empty()
    } else {
        items_upto(plan, outs, n - 1) + step_items(plan[n - 1], outs[n - 1])
    }
}

/// `out` is what rendering `md` gives: pulldown_cmark's HTML of the events
/// as the plan leaves them, each highlighted block standing as the
/// highlighter's fragment less one trailing newline (or as its own events
/// where it could not be highlighted); with highlighting off, or without a
/// fenced code block, pulldown_cmark's own HTML of `md`.
pub open spec fn markdown_rendering(md: Seq<char>, omit: Seq<Seq<char>>, highlight: bool, out: Seq<char>) -> bool {
    let opts = MarkdownOptions::standard_spec();
    let plan = plan_of(cmark_classes(md, opts), highlight, omit);
    &&& exists|outs: Seq<Option<Seq<char>>>| outs.len() == plan.len()
        && out == #[trigger] cmark_render(md, opts, items_upto(plan, outs, plan.len() as int))
    &&& (!highlight || no_fence_from(cmark_classes(md, opts), 0)) ==> out == cmark_html(md, opts)
}

proof fn lemma_keep_all_shape(c: Seq<EventClass>, i: int)
    requires
        0 <= i <= c.len(),
    ensures
        keep_all_from(c, i).len() == c.len() - i,
        forall|k: int| 0 <= k < c.len() - i ==> #[trigger] keep_all_from(c, i)[k] == StepSpec::Keep(i + k),
    decreases c.len() - i,
{
    if i < c.len() {
        lemma_keep_all_shape(c, i + 1);
        assert forall|k: int| 0 <= k < c.len() - i implies #[trigger] keep_all_from(c, i)[k] == StepSpec::Keep(i + k) by {
            if k > 0 {
                assert(keep_all_from(c, i)[k] == keep_all_from(c, i + 1)[k - 1]);
            }
        }
    }
}

proof fn lemma_items_of_kept(plan: Seq<StepSpec>, outs: Seq<Option<Seq<char>>>, n: int)
    requires
        0 <= n <= plan.len(),
        forall|k: int| 0 <= k < plan.len() ==> #[trigger] plan[k] == StepSpec::Keep(k),
    ensures
        items_upto(plan, outs, n) == all_events(n),
    decreases n,
{
    if n > 0 {
        lemma_items_of_kept(plan, outs, n - 1);
        assert(plan[n - 1] == StepSpec::Keep(n - 1));
        assert(all_events(n - 1) + seq![ItemSpec::Event(n - 1)] =~= all_events(n));
    }
}

pub open spec fn outs_view(o: Seq<Option<String>>) -> Seq<Option<Seq<char>>> {
    o.map_values(|x: Option<String>| match x {
        Some(h) => Some(h@),
        None => None,
    })
}

/// Renders `md` as the plan says, given the highlighter's outcome for each
/// step: a kept event as pulldown_cmark has it, a highlighted block as its
/// fragment less one trailing newline, a block the highlighter gave nothing
/// for as its own events.
pub fn render_planned(md: &str, plan: &Vec<Step>, outcomes: &Vec<Option<String>>) -> (r: String)
    requires
        outcomes.len() == plan.len(),
        forall|k: int| 0 <= k < plan.len() ==> step_in_range((#[trigger] plan@[k]).view(),
            cmark_classes(md@, MarkdownOptions::standard_spec()).len() as int),
    ensures
        r@ == cmark_render(md@, MarkdownOptions::standard_spec(),
            items_upto(steps_view(plan@), outs_view(outcomes@), plan.len() as int)),
{
    let opts = MarkdownOptions::standard();
    let ghost pv = steps_view(plan@);
    let ghost outs = outs_view(outcomes@);
    let ghost n = cmark_classes(md@, opts).len() as int;
    let mut items: Vec<RenderItem> = Vec::new();
    let mut j: usize = 0;
    while j < plan.len()
        invariant
            j <= plan.len(),
            outcomes.len() == plan.len(),
            pv == steps_view(plan@),
            outs == outs_view(outcomes@),
            opts == MarkdownOptions::standard_spec(),
            n == cmark_classes(md@, opts).len(),
            items_view(items@) == items_upto(pv, outs, j as int),
            forall|k: int| 0 <= k < plan.len() ==> step_in_range((#[trigger] plan@[k]).view(), n),
            forall|k: int| 0 <= k < items.len() ==> item_in_range((#[trigger] items@[k]).view(), n),
        decreases plan.len() - j,
    {
        let ghost before = items_view(items@);
        assert(pv[j as int] == plan@[j as int].view());
        assert(outs[j as int] == match outcomes@[j as int] { Some(h) => Some(h@), None => None::<Seq<char>> });
        match &plan[j] {
            Step::Keep { index } => {
                items.push(RenderItem::Event { index: *index });
                assert(items_view(items@) =~= before + step_items(pv[j as int], outs[j as int]));
            },
            Step::Highlight { lang: _, code: _, first, last } => {
                match &outcomes[j] {
                    Some(h) => {
                        items.push(RenderItem::Html { html: trim_final_newline(h.as_str()) });
                        assert(items_view(items@) =~= before + step_items(pv[j as int], outs[j as int]));
                    },
                    None => {
                        let mut e = *first;
                        loop
                            invariant_except_break
                                items_view(items@) == before + Seq::new((e - *first) as nat, |x: int| ItemSpec::Event(*first + x)),
                            invariant
                                *first <= e <= *last,
                                *last < n,
                                forall|k: int| 0 <= k < items.len() ==> item_in_range((#[trigger] items@[k]).view(), n),
                            ensures
                                items_view(items@) == before + Seq::new((*last + 1 - *first) as nat, |x: int| ItemSpec::Event(*first + x)),
                                forall|k: int| 0 <= k < items.len() ==> item_in_range((#[trigger] items@[k]).view(), n),
                            decreases *last - e,
                        {
                            let ghost prev = items@;
                            items.push(RenderItem::Event { index: e });
                            assert(items_view(items@) =~= items_view(prev).push(ItemSpec::Event(e as int)));
                            assert(items_view(items@) =~= before + Seq::new((e + 1 - *first) as nat, |x: int| ItemSpec::Event(*first + x)));
                            if e == *last {
                                break;
                            }
                            e += 1;
                        }
                        assert(items_view(items@) =~= before + step_items(pv[j as int], outs[j as int]));
                    },
                }
            },
        }
        j += 1;
    }
    render_items(md, opts, &items)
}

/// Runs the highlighter on each highlight step of the plan; kept events get no outcome.
pub fn highlight_outcomes(ps: &SyntaxSet, theme: &Theme, plan: &Vec<Step>) -> (r: Vec<Option<String>>)
    ensures
        r.len() == plan.len(),
        forall|k: int| 0 <= k < plan.len() ==> (#[trigger] plan@[k]) is Keep ==> r@[k] is None,
{
    let mut r: Vec<Option<String>> = Vec::new();
    let mut j: usize = 0;
    while j < plan.len()
        invariant
            j <= plan.len(),
            r.len() == j,
            forall|k: int| 0 <= k < j ==> (#[trigger] plan@[k]) is Keep ==> r@[k] is None,
        decreases plan.len() - j,
    {
        match &plan[j] {
            Step::Keep { .. } => r.push(None),
            Step::Highlight { lang, code, .. } => r.push(highlight_block(ps, theme, lang.as_str(), code.as_str())),
        }
        j += 1;
    }
    r
}

/// Renders markdown to HTML (see `markdown_rendering`): the plan of
/// `plan_code_blocks`, the highlighter's outcomes, then `render_planned`.
pub fn markdown_to_html(md: &str, ps: &SyntaxSet, theme: &Theme, omit: &Vec<String>, highlight: bool) -> (r: String)
    ensures
        markdown_rendering(md@, omit.deep_view(), highlight, r@),
{
    let opts = MarkdownOptions::standard();
    let classes = markdown_classes(md, opts);
    let plan = plan_code_blocks(&classes, highlight, omit);
    let outcomes = highlight_outcomes(ps, theme, &plan);
    let r = render_planned(md, &plan, &outcomes);
    proof {
        let c = cmark_classes(md@, opts);
        let pv = steps_view(plan@);
        let outs = outs_view(outcomes@);
        assert(pv == plan_of(c, highlight, omit.deep_view()));
        assert(outs.len() == pv.len());
        if !highlight || no_fence_from(c, 0) {
            lemma_plan_keeps_all(c, 0, highlight, omit.deep_view());
            lemma_keep_all_shape(c, 0);
            lemma_items_of_kept(pv, outs, pv.len() as int);
        }
        assert(r@ == cmark_render(md@, opts, items_upto(pv, outs, pv.len() as int)));
    }
    r
}

/// `items_upto` of the first `n` steps depends on the outcomes of those steps alone.
proof fn lemma_items_prefix(plan: Seq<StepSpec>, a: Seq<Option<Seq<char>>>, b: Seq<Option<Seq<char>>>, n: int)
    requires
        0 <= n <= a.len(),
        n <= b.len(),
        forall|k: int| 0 <= k < n ==> a[k] == b[k],
    ensures
        items_upto(plan, a, n) == items_upto(plan, b, n),
    decreases n,
{
    if n > 0 {
        lemma_items_prefix(plan, a, b, n - 1);
    }
}

/// For text without a fenced code block, the HTML is the same with
/// highlighting on or off: pulldown_cmark's own HTML of the text.
pub proof fn lemma_no_fence_same_html(md: Seq<char>, omit: Seq<Seq<char>>, on: Seq<char>, off: Seq<char>)
    requires
        no_fence_from(cmark_classes(md, MarkdownOptions::standard_spec()), 0),
        markdown_rendering(md, omit, true, on),
        markdown_rendering(md, omit, false, off),
    ensures
        on == off,
        on == cmark_html(md, MarkdownOptions::standard_spec()),
{
}

} // verus!
