use minijinja::Environment;
use ssg_generator_utils::config::{omit_language_list, Config};
use ssg_generator_utils::digest::{digest_document, digest_entry, digest_header, trim};
use ssg_generator_utils::meta::Meta;
use ssg_generator_utils::pages::{layout_page, page_result, PageResult, SourceFile};
use ssg_generator_utils::site::{collect_results, index_entries, sitemap_urls, strip_base, trim_domain};
use ssg_generator_utils::sitemap::sitemap_document;
use ssg_generator_utils::templates::{render_content_index, render_page_template, TemplateProblem};

fn source(parts: &[&str]) -> SourceFile {
    SourceFile { rel: parts.iter().map(|p| p.to_string()).collect(), folder: None }
}

fn result(title: &str, url: &str, copy: Option<&str>, desc: Option<&str>) -> PageResult {
    PageResult {
        title: title.to_string(),
        url: url.to_string(),
        copy_path: copy.map(|c| c.to_string()),
        digest_description: desc.map(|d| d.to_string()),
        copied: copy.is_some(),
    }
}

#[test]
fn domain_loses_trailing_slashes() {
    assert_eq!(trim_domain("https://x.io//"), "https://x.io");
    assert_eq!(trim_domain("https://x.io"), "https://x.io");
    assert_eq!(trim_domain(""), "");
}

#[test]
fn sitemap_urls_follow_input_order() {
    let files = vec![source(&["b.md"]), source(&["docs", "index.md"]), source(&["a.md"])];
    let urls = sitemap_urls(&files, "https://x.io/", "");
    assert_eq!(urls, vec!["https://x.io/b.html", "https://x.io/docs/index.html", "https://x.io/a.html"]);
    let with_base = sitemap_urls(&files[..1].to_vec(), "https://x.io", "/blog");
    assert_eq!(with_base, vec!["https://x.io/blog/b.html"]);
}

#[test]
fn sitemap_document_lists_each_url() {
    let urls = vec!["https://x.io/a.html".to_string(), "https://x.io/a.html".to_string()];
    let doc = sitemap_document(&urls).unwrap();
    assert_eq!(
        doc,
        "<?xml version=\"1.0\" encoding=\"UTF-8\"?><urlset xmlns=\"http://www.sitemaps.org/schemas/sitemap/0.9\">\
<url><loc>https://x.io/a.html</loc></url><url><loc>https://x.io/a.html</loc></url></urlset>"
    );
}

#[test]
fn empty_sitemap_has_only_the_urlset() {
    let doc = sitemap_document(&Vec::new()).unwrap();
    assert_eq!(
        doc,
        "<?xml version=\"1.0\" encoding=\"UTF-8\"?><urlset xmlns=\"http://www.sitemaps.org/schemas/sitemap/0.9\"></urlset>"
    );
}

#[test]
fn index_links_lose_the_base_path() {
    assert_eq!(strip_base("/my-blog/a.html", "/my-blog"), "a.html");
    assert_eq!(strip_base("/other/a.html", "/my-blog"), "/other/a.html");
    assert_eq!(strip_base("/a.html", ""), "a.html");
}

#[test]
fn failures_drop_out_of_results() {
    let rs = collect_results(vec![Some(result("A", "/a.html", None, None)), None, Some(result("B", "/b.html", None, None))]);
    let titles: Vec<&str> = rs.iter().map(|r| r.title.as_str()).collect();
    assert_eq!(titles, vec!["A", "B"]);
}

#[test]
fn result_order_does_not_matter() {
    let a = result("A", "/a.html", Some("a.md"), None);
    let b = result("B", "/b.html", None, None);
    let one = collect_results(vec![Some(a.clone()), None, Some(b.clone())]);
    let two = collect_results(vec![Some(b), Some(a), None]);
    let mut x: Vec<String> = one.iter().map(|r| format!("{:?}", r)).collect();
    let mut y: Vec<String> = two.iter().map(|r| format!("{:?}", r)).collect();
    x.sort();
    y.sort();
    assert_eq!(x, y);
}

#[test]
fn digest_header_and_entry_text() {
    assert_eq!(digest_header("T", ""), "# T\n\n## Contents\n\n");
    assert_eq!(digest_header("T", "D"), "# T\n\nD\n\n## Contents\n\n");
    assert_eq!(digest_entry("A", "https://x.io/a.md", ""), "- [A](https://x.io/a.md)\n");
    assert_eq!(digest_entry("A", "https://x.io/a.md", "d"), "- [A](https://x.io/a.md): d\n");
}

#[test]
fn digest_trims_descriptions_and_skips_uncopied() {
    let rs = vec![
        result("A", "/a.html", Some("a.md"), Some("  about a  ")),
        result("B", "/b.html", None, Some("about b")),
        result("C", "/c.html", Some("c.md"), Some("   ")),
    ];
    let doc = digest_document(None, Some("  intro  "), "https://x.io/", &rs);
    assert_eq!(
        doc,
        "# LLM Content Index\n\nintro\n\n## Contents\n\n- [A](https://x.io/a.md): about a\n- [C](https://x.io/c.md)\n"
    );
}

#[test]
fn two_files_end_to_end() {
    let mut meta_a = Meta::empty();
    meta_a.title = Some("A".to_string());
    let mut meta_b = Meta::empty();
    meta_b.title = Some("B".to_string());
    meta_b.omit_digest = Some(true);
    let la = layout_page(&source(&["a.md"]), &meta_a, "/my-blog", true);
    let lb = layout_page(&source(&["b.md"]), &meta_b, "/my-blog", true);
    assert!(la.copy_path.is_some());
    assert!(lb.copy_path.is_none());
    let ra = page_result(la, &meta_a, true);
    let rb = page_result(lb, &meta_b, true);
    let results = collect_results(vec![Some(ra), Some(rb)]);
    let digest = digest_document(Some("Site"), None, "https://x.io", &results);
    assert_eq!(digest, "# Site\n\n## Contents\n\n- [A](https://x.io/a.md)\n");
    assert_eq!(digest.matches("\n- [").count(), 1);
    let entries = index_entries(&results, "/my-blog");
    assert_eq!(
        entries,
        vec![("A".to_string(), "a.html".to_string()), ("B".to_string(), "b.html".to_string())]
    );
}

#[test]
fn content_index_renders_pages() {
    let mut env: Environment<'static> = Environment::new();
    let entries = vec![("A".to_string(), "a.html".to_string()), ("B".to_string(), "b.html".to_string())];
    let src = "{{ title }}:{% for p in pages %}[{{ p.title }}|{{ p.href }}]{% endfor %}".to_string();
    let out = render_content_index(&mut env, src, &entries).unwrap();
    assert_eq!(out, "Index Content:[A|a.html][B|b.html]");
}

#[test]
fn broken_index_template_is_reported() {
    let mut env: Environment<'static> = Environment::new();
    let out = render_content_index(&mut env, "{% for %}".to_string(), &Vec::new());
    assert_eq!(out, Err(TemplateProblem::Failed));
}

#[test]
fn page_template_missing_or_present() {
    let mut env: Environment<'static> = Environment::new();
    assert_eq!(render_page_template(&env, "base.html", "T", "<p>b</p>"), Err(TemplateProblem::Missing));
    env.add_template("base.html", "<title>{{ title }}</title>{{ body|safe }}").unwrap();
    assert_eq!(render_page_template(&env, "base.html", "T", "<p>b</p>").unwrap(), "<title>T</title><p>b</p>");
}

#[test]
fn merge_prefers_first_configuration() {
    let cli = Config {
        base: Some("pages".to_string()),
        templates: None,
        dist: None,
        domain: None,
        base_path: None,
        config: None,
        dump: false,
        omit_languages: None,
        no_syntax_highlighting: true,
    };
    let file = Config {
        base: Some("content".to_string()),
        templates: Some("tpl".to_string()),
        dist: None,
        domain: Some("https://x.io".to_string()),
        base_path: None,
        config: None,
        dump: true,
        omit_languages: Some("a,b".to_string()),
        no_syntax_highlighting: false,
    };
    let m = cli.merge(file);
    assert_eq!(m.base.as_deref(), Some("pages"));
    assert_eq!(m.templates.as_deref(), Some("tpl"));
    assert_eq!(m.dist, None);
    assert_eq!(m.domain.as_deref(), Some("https://x.io"));
    assert!(m.dump);
    assert!(m.no_syntax_highlighting);
    assert_eq!(m.omit_languages.as_deref(), Some("a,b"));
}

#[test]
fn omitted_languages_from_setting() {
    assert_eq!(omit_language_list(None), vec!["mermaid"]);
    assert_eq!(omit_language_list(Some("rust,,dot,")), vec!["rust", "dot"]);
    assert_eq!(omit_language_list(Some("")), Vec::<String>::new());
}

#[test]
fn trim_drops_unicode_white_space() {
    assert_eq!(trim("\u{3000}\t a b \u{A0}\n"), "a b");
    assert_eq!(trim("   "), "");
    assert_eq!(trim("x"), "x");
}
