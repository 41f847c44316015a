use vstd::prelude::*;
use minijinja::Environment;
use syntect::highlighting::Theme;
use syntect::parsing::SyntaxSet;
use crate::markdown::{markdown_rendering, markdown_to_html};
use crate::meta::{Meta, copy_wanted};
use crate::pages::{PageLayout, SourceFile, copy_path_of, dest_of, layout_page, opt_view, page_title, url_of};
use crate::tags::{lemma_markers_ascii, ONLY_IN_DIGEST, EXCLUDE_FROM_DIGEST, filter_for_digest, filter_for_site, remove_tag_and_contents, without_markers, without_spans};
use crate::templates::{TemplateProblem, render_page_template};

verus! {

/// Settings of one build that every page shares.
pub struct SiteSettings {
    /// Prefix of every public URL path.
    pub base_path: String,
    /// Whether a page gets a digest copy when its metadata does not say.
    pub copy_by_default: bool,
    /// Fence languages that are never highlighted.
    pub omit_languages: Vec<String>,
    /// Whether code blocks are highlighted at all.
    pub highlight: bool,
}

/// Template a page is rendered through when its metadata names none.
pub const DEFAULT_TEMPLATE: &'static str = "base.html";

/// The page as written: the template's output, or the body alone when the
/// template is missing or fails; either way without any digest-only span.
pub open spec fn written_html(rendered: Result<String, TemplateProblem>, body: Seq<char>) -> Seq<char> {
    let page = match rendered {
        Ok(s) => s@,
        Err(_) => body,
    };
    without_spans(page, ONLY_IN_DIGEST@)
}

/// Falls back to the body when the template gave nothing, then takes out
/// the digest-only spans that the template may have brought back.
pub fn final_html(rendered: Result<String, TemplateProblem>, body: &str) -> (r: String)
    ensures
        r@ == written_html(rendered, body@),
{
    proof {
        lemma_markers_ascii();
    }
    match rendered {
        Ok(s) => remove_tag_and_contents(s.as_str(), ONLY_IN_DIGEST),
        Err(_) => remove_tag_and_contents(body, ONLY_IN_DIGEST),
    }
}

/// The template a page is rendered through: the one its metadata names,
/// else the default.
pub open spec fn template_of(meta: Meta) -> Seq<char> {
    match meta.extends {
        Some(e) => e@,
        None => DEFAULT_TEMPLATE@,
    }
}

/// Picks the template a page is rendered through (see `template_of`).
pub fn template_name(meta: &Meta) -> (r: &str)
    ensures
        r@ == template_of(*meta),
{
    match &meta.extends {
        Some(e) => e.as_str(),
        None => DEFAULT_TEMPLATE,
    }
}

/// What the template gave, as the page records it.
pub open spec fn problem_of(rendered: Result<String, TemplateProblem>) -> Option<TemplateProblem> {
    match rendered {
        Ok(_) => None,
        Err(p) => Some(p),
    }
}

/// Everything about one page that is decided before anything is written.
pub struct PagePlan {
    pub layout: PageLayout,
    /// The template the page was rendered through.
    pub template: String,
    /// The page HTML to write at `layout.dest`.
    pub html: String,
    /// The digest copy to write at `layout.copy_path`, when one is wanted.
    pub copy_text: Option<String>,
    /// Why the page came out as its body alone, if it did.
    pub problem: Option<TemplateProblem>,
}

/// Puts a page together once its body and the template's outcome are
/// known: the page HTML (see `written_html`), the problem when the template
/// gave nothing, and the digest copy's text when the layout wants a copy.
pub fn assemble_page(
    layout: PageLayout,
    template: &str,
    text: &str,
    body: &str,
    rendered: Result<String, TemplateProblem>,
) -> (r: PagePlan)
    ensures
        r.layout == layout,
        r.template@ == template@,
        r.html@ == written_html(rendered, body@),
        r.problem == problem_of(rendered),
        r.copy_text is Some <==> layout.copy_path is Some,
        r.copy_text is Some ==> r.copy_text.unwrap()@ == without_markers(without_spans(text@, EXCLUDE_FROM_DIGEST@), ONLY_IN_DIGEST@),
{
    let problem = match &rendered {
        Ok(_) => None,
        Err(p) => Some(*p),
    };
    let html = final_html(rendered, body);
    let copy_text = match &layout.copy_path {
        Some(_) => Some(filter_for_digest(text)),
        None => None,
    };
    PagePlan { layout, template: template.to_owned(), html, copy_text, problem }
}

/// Plans one page from its source text and metadata: the layout (title,
/// paths, URL), the template (see `template_of`), the HTML (site
/// filtering, markdown, template with fallback to the body alone, final
/// strip; see `assemble_page`), and the digest copy's text when a copy is
/// wanted.
pub fn build_page(
    src: &SourceFile,
    meta: &Meta,
    text: &str,
    env: &Environment,
    ps: &SyntaxSet,
    theme: &Theme,
    settings: &SiteSettings,
) -> (r: PagePlan)
    requires
        src.wf(),
    ensures
        r.layout.title@ == page_title(opt_view(meta.title), src.name(), src.folder_view()),
        r.layout.dest.deep_view() == dest_of(src.rel.deep_view(), opt_view(meta.page_slug)),
        r.layout.url@ == url_of(src.rel.deep_view(), opt_view(meta.page_slug), settings.base_path@),
        r.layout.copy_path is Some <==> copy_wanted(meta.omit_digest, meta.generate_digest, settings.copy_by_default),
        r.layout.copy_path is Some ==> r.layout.copy_path.unwrap().deep_view() == copy_path_of(r.layout.dest.deep_view(), src.name()),
        r.template@ == template_of(*meta),
        r.copy_text is Some <==> r.layout.copy_path is Some,
        r.copy_text is Some ==> r.copy_text.unwrap()@ == without_markers(without_spans(text@, EXCLUDE_FROM_DIGEST@), ONLY_IN_DIGEST@),
        exists|body: Seq<char>, rendered: Result<String, TemplateProblem>| #[trigger] markdown_rendering(
            without_spans(without_markers(text@, EXCLUDE_FROM_DIGEST@), ONLY_IN_DIGEST@),
            settings.omit_languages.deep_view(),
            settings.highlight,
            body,
        ) && r.html@ == #[trigger] written_html(rendered, body) && r.problem == problem_of(rendered),
{
    let layout = layout_page(src, meta, settings.base_path.as_str(), settings.copy_by_default);
    let site_md = filter_for_site(text);
    let body = markdown_to_html(site_md.as_str(), ps, theme, &settings.omit_languages, settings.highlight);
    let template = template_name(meta);
    let rendered = render_page_template(env, template, layout.title.as_str(), body.as_str());
    let ghost outcome = rendered;
    let r = assemble_page(layout, template, text, body.as_str(), rendered);
    assert(r.html@ == written_html(outcome, body@));
    r
}

} // verus!
