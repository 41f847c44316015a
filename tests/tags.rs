use regex::Regex;
use ssg_generator_utils::tags::{
    filter_for_digest, filter_for_site, remove_tag_and_contents, remove_tag_only, EXCLUDE_FROM_DIGEST, ONLY_IN_DIGEST,
};

fn regex_spans(md: &str, tag: &str) -> String {
    let pattern = format!(r"(?is)<{0}[^>]*?>.*?</{0}>", regex::escape(tag));
    Regex::new(&pattern).unwrap().replace_all(md, "").to_string()
}

fn regex_markers(md: &str, tag: &str) -> String {
    let open = Regex::new(&format!(r"(?i)<{0}[^>]*?>", regex::escape(tag))).unwrap();
    let close = Regex::new(&format!(r"(?i)</{0}>", regex::escape(tag))).unwrap();
    let once = open.replace_all(md, "").to_string();
    close.replace_all(&once, "").to_string()
}

#[test]
fn removes_span_with_attributes_across_lines() {
    let s = "<p>keep</p><secret attr=\"x\">remove\nthis</secret><div>ok</div>";
    assert_eq!(remove_tag_and_contents(s, "secret"), "<p>keep</p><div>ok</div>");
}

#[test]
fn removes_markers_and_keeps_content() {
    let s = "<only-in-llm-txt>Keep this text</only-in-llm-txt>";
    assert_eq!(remove_tag_only(s, "only-in-llm-txt"), "Keep this text");
}

#[test]
fn spans_match_without_regard_to_case() {
    assert_eq!(remove_tag_and_contents("a<SeCrEt>b</SECRET>c", "secret"), "ac");
    assert_eq!(remove_tag_only("a<SeCrEt x=1>b</SECRET>c", "secret"), "abc");
}

#[test]
fn unterminated_span_passes_through() {
    let s = "before <secret>never closed";
    assert_eq!(remove_tag_and_contents(s, "secret"), s);
}

#[test]
fn first_closing_marker_wins() {
    let s = "<x>a<x>b</x>c</x>d";
    assert_eq!(remove_tag_and_contents(s, "x"), "c</x>d");
}

#[test]
fn several_spans_are_all_removed() {
    assert_eq!(remove_tag_and_contents("1<t>a</t>2<t>b</t>3", "t"), "123");
}

#[test]
fn empty_text_stays_empty() {
    assert_eq!(remove_tag_and_contents("", "t"), "");
    assert_eq!(remove_tag_only("", "t"), "");
}

#[test]
fn absent_marker_leaves_text_unchanged() {
    let s = "# Title\n\nSome <b>bold</b> text & more.\n";
    assert_eq!(remove_tag_and_contents(s, ONLY_IN_DIGEST), s);
}

#[test]
fn markers_gone_after_both_filters() {
    let s = "x <t a=1>in</t> y <t>open only z </t> w";
    let out = remove_tag_only(&remove_tag_and_contents(s, "t"), "t");
    assert_eq!(out, "x  y  w");
    assert!(!out.contains("<t"));
    assert!(!out.contains("</t>"));
}

#[test]
fn other_markup_is_left_alone() {
    let s = "<em>a</em> <exclude-from-llm-txt x>b</exclude-from-llm-txt> <ol><li>c</li></ol>";
    let out = remove_tag_only(&remove_tag_and_contents(s, EXCLUDE_FROM_DIGEST), EXCLUDE_FROM_DIGEST);
    assert_eq!(out, "<em>a</em>  <ol><li>c</li></ol>");
}

#[test]
fn filters_settle_on_tame_text() {
    let s = "a <t k=v>gone</t> b <t>kept only</t><em>c</em>";
    let once = remove_tag_only(&remove_tag_and_contents(s, "t"), "t");
    assert_eq!(remove_tag_only(&once, "t"), once);
    assert_eq!(remove_tag_and_contents(&once, "t"), once);
}

#[test]
fn filters_do_not_settle_on_spliced_text() {
    // Outside the law's precondition: a deletion splices a new marker.
    let once = remove_tag_only("<<x>x>", "x");
    assert_eq!(once, "<x>");
    assert_eq!(remove_tag_only(&once, "x"), "");
}

#[test]
fn joined_pieces_can_form_a_marker() {
    // Outside the law's precondition: removal joins `<ta` and `g>`.
    assert_eq!(remove_tag_only("<ta</tag>g>", "tag"), "<tag>");
}

#[test]
fn agrees_with_regex_on_samples() {
    let samples = [
        "plain text",
        "<t>a</t>",
        "<T attr='1'>a\nb</t> rest",
        "<t>a</t><t>b",
        "<tt>x</t>",
        "<t>a</T></t>",
        "<<t>x</t>>",
        "a</t>b<t>c",
        "<t\nx>y</t>",
        "<t>é</t>ü<t>",
    ];
    for s in ["<\u{212A}ey>x</key> y", "<\u{17F}>x</S>z", "<KEY>x</\u{212A}EY>"] {
        for tag in ["key", "s"] {
            assert_eq!(remove_tag_and_contents(s, tag), regex_spans(s, tag), "spans of {s:?}");
            assert_eq!(remove_tag_only(s, tag), regex_markers(s, tag), "markers of {s:?}");
        }
    }
    for s in samples {
        assert_eq!(remove_tag_and_contents(s, "t"), regex_spans(s, "t"), "spans of {s:?}");
        assert_eq!(remove_tag_only(s, "t"), regex_markers(s, "t"), "markers of {s:?}");
    }
}

#[test]
fn site_filter_keeps_excluded_content_and_drops_digest_only() {
    let s = "A <exclude-from-llm-txt>site only</exclude-from-llm-txt> B <only-in-llm-txt>digest only</only-in-llm-txt> C";
    assert_eq!(filter_for_site(s), "A site only B  C");
    assert_eq!(EXCLUDE_FROM_DIGEST, "exclude-from-llm-txt");
}

#[test]
fn digest_filter_drops_excluded_content_and_keeps_digest_only() {
    let s = "A <exclude-from-llm-txt>site only</exclude-from-llm-txt> B <only-in-llm-txt>digest only</only-in-llm-txt> C";
    assert_eq!(filter_for_digest(s), "A  B digest only C");
}
