use minijinja::Environment;
use ssg_generator_utils::markdown::{
    choose_syntax, highlight_block, highlight_outcomes, markdown_to_html, plan_code_blocks, render_planned, trim_final_newline,
    EventClass,
};
use ssg_generator_utils::meta::Meta;
use ssg_generator_utils::pages::SourceFile;
use ssg_generator_utils::pages::{layout_page, PageLayout};
use ssg_generator_utils::render::{assemble_page, build_page, final_html, template_name, SiteSettings};
use ssg_generator_utils::templates::TemplateProblem;
use syntect::highlighting::ThemeSet;
use syntect::parsing::SyntaxSet;

fn settings(highlight: bool) -> SiteSettings {
    SiteSettings {
        base_path: "/my-blog".to_string(),
        copy_by_default: true,
        omit_languages: vec!["mermaid".to_string()],
        highlight,
    }
}

#[test]
fn highlighting_is_irrelevant_without_fences() {
    let ps = SyntaxSet::load_defaults_newlines();
    let ts = ThemeSet::load_defaults();
    let theme = &ts.themes["base16-ocean.dark"];
    let md = "# Title\n\n| a | b |\n|---|---|\n| 1 | 2 |\n\n~~gone~~ and [^1]\n\n    indented code\n\n[^1]: note\n";
    let on = markdown_to_html(md, &ps, theme, &Vec::new(), true);
    let off = markdown_to_html(md, &ps, theme, &Vec::new(), false);
    assert_eq!(on, off);
    assert!(on.contains("<table>"));
    assert!(on.contains("<del>gone</del>"));
}

#[test]
fn text_without_code_is_the_parser_own_html() {
    let ps = SyntaxSet::load_defaults_newlines();
    let ts = ThemeSet::load_defaults();
    let theme = &ts.themes["base16-ocean.dark"];
    let md = "# T\n\n- [x] done\n- [ ] todo\n\nA ~~b~~ c[^n].\n\n[^n]: note\n";
    let mut options = pulldown_cmark::Options::empty();
    options.insert(pulldown_cmark::Options::ENABLE_TABLES);
    options.insert(pulldown_cmark::Options::ENABLE_FOOTNOTES);
    options.insert(pulldown_cmark::Options::ENABLE_STRIKETHROUGH);
    options.insert(pulldown_cmark::Options::ENABLE_TASKLISTS);
    let mut expected = String::new();
    pulldown_cmark::html::push_html(&mut expected, pulldown_cmark::Parser::new_ext(md, options));
    assert_eq!(markdown_to_html(md, &ps, theme, &Vec::new(), true), expected);
    assert_eq!(markdown_to_html(md, &ps, theme, &Vec::new(), false), expected);
}

#[test]
fn fenced_block_is_highlighted_unless_omitted() {
    let ps = SyntaxSet::load_defaults_newlines();
    let ts = ThemeSet::load_defaults();
    let theme = &ts.themes["base16-ocean.dark"];
    let md = "```rust\nfn main() {}\n```\n";
    let on = markdown_to_html(md, &ps, theme, &Vec::new(), true);
    assert!(on.starts_with("<pre style="));
    assert!(!on.contains("<code"));
    let omitted = markdown_to_html(md, &ps, theme, &vec!["rust".to_string()], true);
    assert_eq!(omitted, "<pre><code class=\"language-rust\">fn main() {}\n</code></pre>\n");
    let off = markdown_to_html(md, &ps, theme, &Vec::new(), false);
    assert_eq!(off, omitted);
}

#[test]
fn highlighted_fragment_loses_final_newline() {
    let ps = SyntaxSet::load_defaults_newlines();
    let ts = ThemeSet::load_defaults();
    let theme = &ts.themes["base16-ocean.dark"];
    let h = highlight_block(&ps, theme, "no-such-language", "x\n").unwrap();
    assert!(h.ends_with("</pre>\n"));
    let md = "```no-such-language\nx\n```\n";
    let page = markdown_to_html(md, &ps, theme, &Vec::new(), true);
    assert_eq!(page, trim_final_newline(&h));
    assert_eq!(trim_final_newline("a\n\n"), "a\n");
    assert_eq!(trim_final_newline("a"), "a");
}

#[test]
fn final_html_falls_back_and_strips() {
    let body = "<p>b</p><only-in-llm-txt>x</only-in-llm-txt>";
    assert_eq!(final_html(Err(TemplateProblem::Missing), body), "<p>b</p>");
    assert_eq!(final_html(Ok("<h1>T</h1><only-in-llm-txt>y</only-in-llm-txt>".to_string()), body), "<h1>T</h1>");
}

#[test]
fn page_is_planned_from_source_and_metadata() {
    let ps = SyntaxSet::load_defaults_newlines();
    let ts = ThemeSet::load_defaults();
    let theme = &ts.themes["base16-ocean.dark"];
    let mut env: Environment<'static> = Environment::new();
    env.add_template("base.html", "<h1>{{ title }}</h1>{{ body|safe }}").unwrap();
    let src = SourceFile { rel: vec!["topics".to_string(), "intro".to_string(), "index.md".to_string()], folder: Some("intro".to_string()) };
    let mut meta = Meta::empty();
    meta.page_slug = Some("quickstart".to_string());
    let text = "Hi <exclude-from-llm-txt>site</exclude-from-llm-txt><only-in-llm-txt>llm</only-in-llm-txt>";
    let plan = build_page(&src, &meta, text, &env, &ps, theme, &settings(true));
    assert_eq!(plan.layout.title, "Intro");
    assert_eq!(plan.layout.dest, vec!["topics", "quickstart", "index.html"]);
    assert_eq!(plan.layout.url, "/my-blog/quickstart/index.html");
    assert_eq!(plan.html, "<h1>Intro</h1><p>Hi site</p>\n");
    assert_eq!(plan.copy_text.as_deref(), Some("Hi llm"));
    assert_eq!(plan.problem, None);

    let mut missing = meta.clone();
    missing.extends = Some("none.html".to_string());
    let fallback = build_page(&src, &missing, text, &env, &ps, theme, &settings(false));
    assert_eq!(fallback.html, "<p>Hi site</p>\n");
    assert_eq!(fallback.problem, Some(TemplateProblem::Missing));
}

#[test]
fn template_defaults_to_base() {
    let mut meta = Meta::empty();
    assert_eq!(template_name(&meta), "base.html");
    meta.extends = Some("post.html".to_string());
    assert_eq!(template_name(&meta), "post.html");
}

fn plain_layout(copy: bool) -> PageLayout {
    let src = SourceFile { rel: vec!["a.md".to_string()], folder: None };
    layout_page(&src, &Meta::empty(), "", copy)
}

#[test]
fn page_assembled_from_template_outcome() {
    let text = "x<exclude-from-llm-txt>e</exclude-from-llm-txt><only-in-llm-txt>o</only-in-llm-txt>";
    let ok = assemble_page(plain_layout(true), "base.html", text, "<p>b</p>", Ok("<h1>T</h1><only-in-llm-txt>z</only-in-llm-txt>".to_string()));
    assert_eq!(ok.html, "<h1>T</h1>");
    assert_eq!(ok.problem, None);
    assert_eq!(ok.template, "base.html");
    assert_eq!(ok.copy_text.as_deref(), Some("xo"));
    let failed = assemble_page(plain_layout(false), "base.html", text, "<p>b</p>", Err(TemplateProblem::Failed));
    assert_eq!(failed.html, "<p>b</p>");
    assert_eq!(failed.problem, Some(TemplateProblem::Failed));
    assert_eq!(failed.copy_text, None);
}

#[test]
fn planned_rendering_uses_given_outcomes() {
    let ps = SyntaxSet::load_defaults_newlines();
    let ts = ThemeSet::load_defaults();
    let theme = &ts.themes["base16-ocean.dark"];
    let md = "Hi\n\n```rust\nfn f() {}\n```\n";
    let classes = vec![
        EventClass::Other,
        EventClass::Text { text: "Hi".to_string() },
        EventClass::Other,
        EventClass::FenceStart { lang: "rust".to_string() },
        EventClass::Text { text: "fn f() {}\n".to_string() },
        EventClass::CodeEnd,
    ];
    let plan = plan_code_blocks(&classes, true, &Vec::new());
    assert_eq!(plan.len(), 4);
    let given = vec![None, None, None, Some("<pre>H</pre>\n".to_string())];
    assert_eq!(render_planned(md, &plan, &given), "<p>Hi</p>\n<pre>H</pre>");
    let none = vec![None, None, None, None];
    assert_eq!(render_planned(md, &plan, &none), "<p>Hi</p>\n<pre><code class=\"language-rust\">fn f() {}\n</code></pre>\n");
    let outcomes = highlight_outcomes(&ps, theme, &plan);
    assert!(outcomes[..3].iter().all(|o| o.is_none()));
    assert!(outcomes[3].as_deref().unwrap().starts_with("<pre style="));
}

#[test]
fn syntax_falls_back_to_plain_text() {
    let ps = SyntaxSet::load_defaults_newlines();
    let rust = ps.find_syntax_by_token("rust");
    let plain = ps.find_syntax_by_name("Plain Text");
    assert_eq!(choose_syntax(rust, plain).unwrap().name, "Rust");
    assert_eq!(choose_syntax(None, plain).unwrap().name, "Plain Text");
    assert!(choose_syntax(None, None).is_none());
}
