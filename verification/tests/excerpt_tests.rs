use ackamoto::excerpt::truncate_comment;

#[test]
fn short_single_line_kept_whole() {
    assert_eq!(truncate_comment("hello world", 200), "hello world");
}

#[test]
fn multi_line_kept_whole() {
    assert_eq!(truncate_comment("first\nsecond", 200), "first\nsecond");
}

#[test]
fn overflowing_line_replaced_by_ellipsis() {
    // "abc" fits (3 <= 5); then accumulated 4 + 5 > 5, so "defgh" is dropped.
    assert_eq!(truncate_comment("abc\ndefgh", 5), "abc\n...");
}

#[test]
fn first_line_too_long_gives_bare_ellipsis() {
    let body = "a".repeat(300);
    assert_eq!(truncate_comment(&body, 200), "...");
}

#[test]
fn carriage_returns_are_stripped() {
    assert_eq!(truncate_comment("abc\r\ndef", 200), "abc\ndef");
}

#[test]
fn surrounding_whitespace_is_trimmed() {
    assert_eq!(truncate_comment("   hi   ", 200), "hi");
}

#[test]
fn empty_body_gives_empty_excerpt() {
    assert_eq!(truncate_comment("", 200), "");
}

#[test]
fn never_splits_inside_a_line() {
    // Each kept line appears verbatim; the cutoff line vanishes entirely.
    let body = "one line\nsecond line\nthird line is rather long";
    let r = truncate_comment(body, 22);
    assert_eq!(r, "one line\nsecond line\n...");
    for line in r.trim_end_matches("...").lines() {
        assert!(body.lines().any(|l| l == line || line.is_empty()));
    }
}

#[test]
fn length_never_exceeds_budget_plus_suffix() {
    let body = "x".repeat(50000);
    let r = truncate_comment(&body, 200);
    assert!(r.chars().count() <= 204);
    let many_lines = "word\n".repeat(500);
    let r2 = truncate_comment(&many_lines, 200);
    assert!(r2.chars().count() <= 204);
    assert!(r2.ends_with("..."));
}
