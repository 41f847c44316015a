use ssg_generator_utils::meta::{should_copy_markdown, Meta};
use ssg_generator_utils::pages::{
    destination, folder_name_to_title, html_file_name, layout_page, page_result, public_url, resolve_title, SourceFile,
};

fn source(parts: &[&str], folder: Option<&str>) -> SourceFile {
    SourceFile { rel: parts.iter().map(|p| p.to_string()).collect(), folder: folder.map(|f| f.to_string()) }
}

#[test]
fn folder_title_capitalises_each_word() {
    assert_eq!(folder_name_to_title(Some("getting-started")), "Getting Started");
    assert_eq!(folder_name_to_title(Some("my-folder-name")), "My Folder Name");
    assert_eq!(folder_name_to_title(Some("single")), "Single");
    assert_eq!(folder_name_to_title(None), "Untitled");
    assert_eq!(folder_name_to_title(Some("a--b")), "A  B");
    assert_eq!(folder_name_to_title(Some("ßig")), "SSig");
}

#[test]
fn index_title_falls_back_to_folder() {
    let src = source(&["getting-started", "index.md"], Some("getting-started"));
    assert_eq!(resolve_title(&src, &Meta::empty()), "Getting Started");
}

#[test]
fn title_prefers_metadata_then_stem() {
    let mut meta = Meta::empty();
    meta.title = Some("Chosen".to_string());
    assert_eq!(resolve_title(&source(&["a.md"], Some("pages")), &meta), "Chosen");
    assert_eq!(resolve_title(&source(&["notes.v2.md"], Some("pages")), &Meta::empty()), "notes.v2");
    assert_eq!(resolve_title(&source(&[""], None), &Meta::empty()), "Untitled");
}

#[test]
fn extension_becomes_html() {
    assert_eq!(html_file_name("a.md"), "a.html");
    assert_eq!(html_file_name("a.b.md"), "a.b.html");
    assert_eq!(html_file_name("noext"), "noext.html");
    assert_eq!(html_file_name(".md"), ".md.html");
}

#[test]
fn digest_copy_precedence() {
    let mut meta = Meta::empty();
    assert!(should_copy_markdown(&meta, true));
    assert!(!should_copy_markdown(&meta, false));
    meta.generate_digest = Some(false);
    assert!(!should_copy_markdown(&meta, true));
    meta.generate_digest = Some(true);
    assert!(should_copy_markdown(&meta, false));
    meta.omit_digest = Some(true);
    assert!(!should_copy_markdown(&meta, true));
    meta.omit_digest = Some(false);
    assert!(should_copy_markdown(&meta, false));
}

#[test]
fn slug_replaces_index_directory() {
    let src = source(&["topics", "intro", "index.md"], Some("intro"));
    let slug = "quickstart".to_string();
    assert_eq!(destination(&src, Some(&slug)), vec!["topics", "quickstart", "index.html"]);
    assert_eq!(public_url(&src, Some(&slug), "/my-blog"), "/my-blog/quickstart/index.html");
    assert_eq!(destination(&src, None), vec!["topics", "intro", "index.html"]);
    assert_eq!(public_url(&src, None, "/my-blog"), "/my-blog/topics/intro/index.html");
}

#[test]
fn slug_without_parent_goes_under_root() {
    let src = source(&["index.md"], Some("pages"));
    let slug = "home".to_string();
    assert_eq!(destination(&src, Some(&slug)), vec!["home", "index.html"]);
}

#[test]
fn slug_ignored_for_other_files() {
    let src = source(&["topics", "a.md"], Some("topics"));
    let slug = "x".to_string();
    assert_eq!(destination(&src, Some(&slug)), vec!["topics", "a.html"]);
    assert_eq!(public_url(&src, Some(&slug), ""), "/topics/a.html");
}

#[test]
fn layout_and_result_of_a_copied_page() {
    let src = source(&["docs", "a.md"], Some("docs"));
    let mut meta = Meta::empty();
    meta.digest_description = Some("About A".to_string());
    let layout = layout_page(&src, &meta, "/b", true);
    assert_eq!(layout.title, "a");
    assert_eq!(layout.url, "/b/docs/a.html");
    assert_eq!(layout.copy_path, Some(vec!["docs".to_string(), "a.md".to_string()]));
    let r = page_result(layout, &meta, true);
    assert!(r.copied);
    assert_eq!(r.copy_path.as_deref(), Some("docs/a.md"));
    assert_eq!(r.digest_description.as_deref(), Some("About A"));
}

#[test]
fn failed_copy_is_not_recorded() {
    let src = source(&["a.md"], None);
    let layout = layout_page(&src, &Meta::empty(), "", true);
    let r = page_result(layout, &Meta::empty(), false);
    assert!(!r.copied);
    assert_eq!(r.copy_path, None);
}
