use mdbook_frontmatter_strip::strip_frontmatter;
use mdbook_frontmatter_strip::supports_renderer;

fn split(s: &str) -> (String, Option<String>) {
    strip_frontmatter(s)
}

#[test]
fn basic_frontmatter_is_extracted() {
    let (body, fm) = split("---\ntitle: X\n---\nHello\n");
    assert_eq!(body, "Hello");
    assert_eq!(fm, Some("---\ntitle: X\n---".to_string()));
}

#[test]
fn plain_text_is_kept() {
    let (body, fm) = split("Hello\nworld\n");
    assert_eq!(body, "Hello\nworld");
    assert_eq!(fm, None);
}

#[test]
fn unterminated_fence_is_kept() {
    let (body, fm) = split("---\nonly open\n");
    assert_eq!(body, "---\nonly open");
    assert_eq!(fm, None);
}

#[test]
fn empty_frontmatter_block() {
    let (body, fm) = split("---\n---\nBody text\n");
    assert_eq!(body, "Body text");
    assert_eq!(fm, Some("---\n---".to_string()));
}

#[test]
fn empty_input() {
    let (body, fm) = split("");
    assert_eq!(body, "");
    assert_eq!(fm, None);
}

#[test]
fn splitting_a_body_again_finds_nothing() {
    let (body, fm) = split("---\ntitle: X\n---\nHello\nworld\n");
    assert!(fm.is_some());
    let (body2, fm2) = split(&body);
    assert_eq!(body2, body);
    assert_eq!(fm2, None);
}

#[test]
fn splitting_a_plain_body_again_finds_nothing() {
    let (body, fm) = split("Hello\n\nworld\n\n");
    assert_eq!(fm, None);
    let (body2, fm2) = split(&body);
    assert_eq!(body2, body);
    assert_eq!(fm2, None);
}

#[test]
fn only_first_pair_is_frontmatter() {
    let (body, fm) = split("---\na\n---\n---\nb\n---\nc\n");
    assert_eq!(fm, Some("---\na\n---".to_string()));
    assert_eq!(body, "---\nb\n---\nc");
}

#[test]
fn fences_may_carry_whitespace() {
    let (body, fm) = split(" ---\nkey: v\n--- \ntext\n");
    assert_eq!(fm, Some(" ---\nkey: v\n---".to_string()));
    assert_eq!(body, "text");
}

#[test]
fn leading_blank_line_disqualifies_fence() {
    let (body, fm) = split("\n---\na\n---\nbody\n");
    assert_eq!(fm, None);
    assert_eq!(body, "\n---\na\n---\nbody");
}

#[test]
fn blank_lines_around_body_are_trimmed() {
    let (body, fm) = split("---\nt\n---\n\n  \nHello\n \n\n");
    assert_eq!(fm, Some("---\nt\n---".to_string()));
    assert_eq!(body, "Hello");
}

#[test]
fn interior_blank_lines_are_preserved() {
    let (body, fm) = split("---\nt\n---\na\n\nb\n");
    assert_eq!(fm, Some("---\nt\n---".to_string()));
    assert_eq!(body, "a\n\nb");
}

#[test]
fn carriage_returns_count_as_line_whitespace() {
    let (body, fm) = split("---\r\nt\r\n---\r\nHello\r\n");
    assert_eq!(fm, Some("---\r\nt\r\n---".to_string()));
    assert_eq!(body, "Hello\r");
}

#[test]
fn lone_opening_fence_is_kept() {
    let (body, fm) = split("---");
    assert_eq!(fm, None);
    assert_eq!(body, "---");

    let (body, fm) = split("---\n");
    assert_eq!(fm, None);
    assert_eq!(body, "---");
}

#[test]
fn fences_close_at_end_of_input() {
    let (body, fm) = split("---\n---");
    assert_eq!(fm, Some("---\n---".to_string()));
    assert_eq!(body, "");

    let (body, fm) = split("---\n---\n");
    assert_eq!(fm, Some("---\n---".to_string()));
    assert_eq!(body, "");
}

#[test]
fn whitespace_only_document_becomes_empty() {
    let (body, fm) = split("  \n\t\n");
    assert_eq!(fm, None);
    assert_eq!(body, "");
}

#[test]
fn four_dashes_are_not_a_fence() {
    let (body, fm) = split("----\nx\n");
    assert_eq!(fm, None);
    assert_eq!(body, "----\nx");

    let (body, fm) = split("---\n----\nx\n");
    assert_eq!(fm, None);
    assert_eq!(body, "---\n----\nx");
}

#[test]
fn round_trip_reconstructs_the_document() {
    let original = "---\ntitle: X\n---\nHello\n";
    let (_, fm) = split(original);
    let fm = fm.unwrap();
    // The frontmatter, the separating newline and the pre-trim remainder
    // rebuild the original document.
    assert_eq!(format!("{}\nHello\n", fm), original);
}

#[test]
fn only_html_renderer_is_supported() {
    assert!(supports_renderer("html"));
    assert!(!supports_renderer("markdown"));
    assert!(!supports_renderer(""));
    assert!(!supports_renderer("HTML"));
}
