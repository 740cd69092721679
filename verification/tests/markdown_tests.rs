use genetics::config::{Config, Markdown, Mode};
use genetics::context::RenderContext;
use genetics::markdown::markdown_to_html;
use genetics::registry::SyntaxRegistry;

fn test_config() -> Config {
    Config {
        base_url: "http://localhost:8080".to_string(),
        title: Some("Test Site".to_string()),
        description: Some("Test site description".to_string()),
        mode: Mode::Build,
        markdown: Markdown {
            highlight_code: true,
            render_emoji: true,
            highlight_theme: "base16-ocean-dark".to_string(),
            extra_theme_set: Vec::new(),
        },
    }
}

#[test]
fn test_heading_parsing() {
    let config = test_config();
    let reg = SyntaxRegistry::load();
    let context = RenderContext::new(&config, Some("test.md"), "/test/", None, Vec::new());
    let markdown = "# Heading 1\n## Heading 2\n### Heading 3";
    let result = markdown_to_html(markdown, &context, &reg).unwrap();

    println!("Actual output: {}", result.body);

    assert!(result.body.contains("Heading 1"));
    assert!(result.body.contains("Heading 2"));
    assert!(result.body.contains("Heading 3"));
}

#[test]
fn test_paragraphs() {
    let config = test_config();
    let reg = SyntaxRegistry::load();
    let context = RenderContext::new(&config, Some("test.md"), "/test/", None, Vec::new());
    let markdown = "First paragraph.\n\nSecond paragraph.";
    let result = markdown_to_html(markdown, &context, &reg).unwrap();

    println!("Actual output: {}", result.body);

    assert!(result.body.contains("First paragraph."));
    assert!(result.body.contains("Second paragraph."));
}

#[test]
fn test_links() {
    let config = test_config();
    let reg = SyntaxRegistry::load();
    let context = RenderContext::new(&config, Some("test.md"), "/test/", None, Vec::new());
    let markdown = "[Example](https://example.com) [Internal](/internal)";
    let result = markdown_to_html(markdown, &context, &reg).unwrap();

    println!("Actual output: {}", result.body);

    assert!(result.body.contains("Example"));
    assert!(result.body.contains("Internal"));
    assert!(result.body.contains("https://example.com"));
    assert!(result.body.contains("/internal"));
}

#[test]
fn test_lists() {
    let config = test_config();
    let reg = SyntaxRegistry::load();
    let context = RenderContext::new(&config, Some("test.md"), "/test/", None, Vec::new());
    let markdown = "- Item 1\n- Item 2\n  1. Nested 1\n  2. Nested 2";
    let result = markdown_to_html(markdown, &context, &reg).unwrap();

    assert!(result.body.contains("<ul>"));
    assert!(result.body.contains("<li>Item 1</li>"));
    assert!(result.body.contains("<li>Item 2"));
    assert!(result.body.contains("<ol>"));
    assert!(result.body.contains("<li>Nested 1</li>"));
    assert!(result.body.contains("<li>Nested 2</li>"));
}

#[test]
fn test_code_blocks() {
    let config = test_config();
    let reg = SyntaxRegistry::load();
    let context = RenderContext::new(&config, Some("test.md"), "/test/", None, Vec::new());
    let markdown = "```rust\nfn main() {}\n```";
    let result = markdown_to_html(markdown, &context, &reg).unwrap();

    println!("Actual output: {}", result.body);

    assert!(result.body.contains("<"));
    assert!(result.body.contains(">"));
}

#[test]
fn test_blockquotes() {
    let config = test_config();
    let reg = SyntaxRegistry::load();
    let context = RenderContext::new(&config, Some("test.md"), "/test/", None, Vec::new());
    let markdown = "> This is a blockquote\n> With multiple lines";
    let result = markdown_to_html(markdown, &context, &reg).unwrap();

    assert!(result.body.contains("<blockquote>"));
    assert!(result.body.contains("<p>This is a blockquote"));
    assert!(result.body.contains("With multiple lines"));
}

#[test]
fn test_emphasis() {
    let config = test_config();
    let reg = SyntaxRegistry::load();
    let context = RenderContext::new(&config, Some("test.md"), "/test/", None, Vec::new());
    let markdown = "*italic* **bold** `code` ~~strikethrough~~";
    let result = markdown_to_html(markdown, &context, &reg).unwrap();

    println!("Actual output: {}", result.body);

    assert!(result.body.contains("italic") || result.body.contains("<em>italic</em>"));
    assert!(result.body.contains("bold") || result.body.contains("<strong>bold</strong>"));
    assert!(result.body.contains("code") || result.body.contains("<code>code</code>"));
    assert!(
        result.body.contains("strikethrough") || result.body.contains("<s>strikethrough</s>")
    );
}

#[test]
fn test_task_lists() {
    let config = test_config();
    let reg = SyntaxRegistry::load();
    let context = RenderContext::new(&config, Some("test.md"), "/test/", None, Vec::new());
    let markdown = "- [x] Completed task\n- [ ] Incomplete task";
    let result = markdown_to_html(markdown, &context, &reg).unwrap();

    println!("Actual output: {}", result.body);

    assert!(result.body.contains("Completed task"));
    assert!(result.body.contains("Incomplete task"));
}
