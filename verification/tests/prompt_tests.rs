use forge_reflect::prompt::strip_frontmatter_and_h1;

#[test]
fn test_strip_frontmatter_and_h1() {
    let input = "---\ntitle: Test\n---\n# My Title\n\nBody text here.\n";
    let result = strip_frontmatter_and_h1(input);
    assert_eq!(result.trim(), "Body text here.");
}

#[test]
fn test_strip_h1_only() {
    let input = "# My Title\n\nBody text here.\n";
    let result = strip_frontmatter_and_h1(input);
    assert_eq!(result.trim(), "Body text here.");
}

#[test]
fn test_no_frontmatter_no_h1() {
    let input = "Just body text.\n";
    let result = strip_frontmatter_and_h1(input);
    assert_eq!(result.trim(), "Just body text.");
}

#[test]
fn test_unclosed_frontmatter_strips_everything() {
    let input = "---\ntitle: Test\nno closing fence\n";
    let result = strip_frontmatter_and_h1(input);
    assert_eq!(result, "");
}

#[test]
fn test_empty_input() {
    assert_eq!(strip_frontmatter_and_h1(""), "");
}
