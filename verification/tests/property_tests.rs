use genetics::config::{Config, Markdown, Mode};
use genetics::context::RenderContext;
use genetics::errors::RenderError;
use genetics::fence::{FenceSettings, LineRange};
use genetics::markdown::{markdown_to_html, transform_events, HeadingStruct, MdEvent, MdTag};
use genetics::page::Page;
use genetics::registry::SyntaxRegistry;
use genetics::content::{make_table_of_content, Heading};
use genetics::site;

fn plain_config() -> Config {
    Config {
        base_url: "http://localhost:8080".to_string(),
        title: None,
        description: None,
        mode: Mode::Build,
        markdown: Markdown::new(),
    }
}

#[test]
fn fence_round_trip() {
    let parsed =
        FenceSettings::new("rust,name=demo,linenostart=10,hide_lines=2,hl_lines=1-3 8,enablelinenumbers");
    let canon = parsed.to_fence_string();
    assert_eq!(
        canon,
        "rust,name=demo,linenostart=10,hide_lines=2,hl_lines=1-3 8,enablelinenumbers"
    );
    let reparsed = FenceSettings::new(&canon);
    assert_eq!(reparsed.language, parsed.language);
    assert_eq!(reparsed.name, parsed.name);
    assert_eq!(reparsed.line_number_start, parsed.line_number_start);
    assert_eq!(reparsed.line_numbers, parsed.line_numbers);
    assert_eq!(reparsed.hide_lines, parsed.hide_lines);
    assert_eq!(reparsed.highlight_lines, parsed.highlight_lines);
}

#[test]
fn fence_range_swap() {
    let backwards = FenceSettings::new("x,hl_lines=5-3");
    let forwards = FenceSettings::new("x,hl_lines=3-5");
    assert_eq!(backwards.highlight_lines, vec![LineRange { from: 3, to: 5 }]);
    assert_eq!(backwards.highlight_lines, forwards.highlight_lines);
}

#[test]
fn fence_bad_directives_are_skipped() {
    let parsed = FenceSettings::new("linenostart=zero,rust,python,name=n");
    assert_eq!(parsed.line_number_start, 1);
    assert_eq!(parsed.language.as_deref(), Some("rust"));
    assert_eq!(parsed.name.as_deref(), Some("n"));
}

#[test]
fn anchors_stay_distinct() {
    let used: Vec<String> = Vec::new();
    let first = genetics::anchor::get_anchor(&used, "Hello".to_string());
    assert_eq!(first, "Hello");
    let used = vec!["Hello".to_string()];
    let second = genetics::anchor::get_anchor(&used, "Hello".to_string());
    assert_eq!(second, "Hello-2");
    let used = vec!["Hello".to_string(), "Hello-2".to_string()];
    let third = genetics::anchor::get_anchor(&used, "Hello".to_string());
    assert_eq!(third, "Hello-3");
}

#[test]
fn duplicate_headings_get_numbered_anchors() {
    let config = plain_config();
    let reg = SyntaxRegistry::load();
    let context = RenderContext::new(&config, None, "/post/", None, Vec::new());
    let result = markdown_to_html("# Hello\n## Hello", &context, &reg).unwrap();
    assert!(result.body.contains("id=\"Hello\""));
    assert!(result.body.contains("id=\"Hello-2\""));
}

#[test]
fn external_links_pass_through_and_are_recorded_once() {
    let config = plain_config();
    let reg = SyntaxRegistry::load();
    let context = RenderContext::new(&config, Some("post.md"), "/post/", None, Vec::new());
    let result =
        markdown_to_html("[a](https://example.com) and [b](https://example.com)", &context, &reg)
            .unwrap();
    assert!(result.body.contains("href='https://example.com'"));
    assert_eq!(
        result.external_links,
        vec!["https://example.com".to_string(), "https://example.com".to_string()]
    );
    assert!(result.internal_links.is_empty());
}

#[test]
fn anchor_links_become_absolute_and_are_recorded() {
    let config = plain_config();
    let reg = SyntaxRegistry::load();
    let context = RenderContext::new(&config, Some("post.md"), "/post/", None, Vec::new());
    let result = markdown_to_html("[x](#section)", &context, &reg).unwrap();
    assert!(result.body.contains("href=\"/post/#section\""));
    assert_eq!(
        result.internal_links,
        vec![("post.md".to_string(), Some("section".to_string()))]
    );
    assert!(result.external_links.is_empty());
}

#[test]
fn hidden_lines_stay_out_in_order() {
    let config = plain_config();
    let reg = SyntaxRegistry::load();
    let context = RenderContext::new(&config, None, "/post/", None, Vec::new());
    let markdown = "```rust,hl_lines=1,hide_lines=2\nlineA\nlineB\nlineC\n```";
    let result = markdown_to_html(markdown, &context, &reg).unwrap();
    assert!(result.body.contains("lineA"));
    assert!(!result.body.contains("lineB"));
    assert!(result.body.contains("lineC"));
    let a = result.body.find("lineA").unwrap();
    let c = result.body.find("lineC").unwrap();
    assert!(a < c);
    assert!(result.body.contains("<mark>lineA\n</mark>"));
}

#[test]
fn no_highlighting_means_escaped_text_only() {
    let config = plain_config();
    let reg = SyntaxRegistry::load();
    let context = RenderContext::new(&config, None, "/post/", None, Vec::new());
    let markdown = "```\nx < y & z\n```";
    let result = markdown_to_html(markdown, &context, &reg).unwrap();
    assert!(result
        .body
        .contains("<pre><code class=\"language-text\">x &lt; y &amp; z\n</code></pre>"));
}

#[test]
fn line_numbers_render_table_rows() {
    let config = plain_config();
    let reg = SyntaxRegistry::load();
    let context = RenderContext::new(&config, None, "/post/", None, Vec::new());
    let markdown = "```text,enablelinenumbers,linenostart=10\na\nb\n```";
    let result = markdown_to_html(markdown, &context, &reg).unwrap();
    assert!(result.body.contains("<table><tbody>"));
    assert!(result.body.contains("<tr><td>10</td><td>a\n</td></tr>"));
    assert!(result.body.contains("<tr><td>11</td><td>b\n</td></tr>"));
}

#[test]
fn summary_is_body_cut_at_marker() {
    let config = plain_config();
    let reg = SyntaxRegistry::load();
    let context = RenderContext::new(&config, None, "/post/", None, Vec::new());
    let markdown = "Hello\n\n<span id=\"continue-reading\"></span>\n\nWorld";
    let result = markdown_to_html(markdown, &context, &reg).unwrap();
    let marker = "<span id=\"continue-reading\"></span>";
    let idx = result.body.find(marker).unwrap();
    let summary = result.summary.unwrap();
    // The summary is the body truncated exactly at the marker, followed only
    // by the closing tags that repair what the cut left open.
    assert!(summary.starts_with(&result.body[..idx]));
    let repairs = &summary[idx..];
    assert_eq!(repairs.replace("</p>", ""), "");
}

#[test]
fn document_without_marker_has_no_summary() {
    let config = plain_config();
    let reg = SyntaxRegistry::load();
    let context = RenderContext::new(&config, None, "/post/", None, Vec::new());
    let result = markdown_to_html("Just a paragraph.", &context, &reg).unwrap();
    assert!(result.summary.is_none());
}

#[test]
fn empty_link_fails_the_render() {
    let config = plain_config();
    let reg = SyntaxRegistry::load();
    let context = RenderContext::new(&config, None, "/post/", None, Vec::new());
    let result = markdown_to_html("[x]()", &context, &reg);
    assert!(matches!(result, Err(RenderError::EmptyLink)));
}

#[test]
fn shortcode_placeholder_in_code_block_is_fatal() {
    let config = plain_config();
    let reg = SyntaxRegistry::load();
    let context = RenderContext::new(&config, None, "/post/", None, Vec::new());
    let markdown = "```\n@@GENETICS_SHORTCODE_PLACEHOLDER@@\n```";
    let result = markdown_to_html(markdown, &context, &reg);
    assert!(matches!(result, Err(RenderError::ShortcodeInCodeBlock)));
}

#[test]
fn emoji_codes_are_substituted_when_enabled() {
    let mut config = plain_config();
    config.markdown.render_emoji = true;
    let reg = SyntaxRegistry::load();
    let context = RenderContext::new(&config, None, "/post/", None, Vec::new());
    let result = markdown_to_html("hi :smile: there", &context, &reg).unwrap();
    assert!(result.body.contains("\u{1F604}"));
    assert!(!result.body.contains(":smile:"));
}

#[test]
fn site_config_parsing_enforces_base_url() {
    let ok = site::Config::parse("base_url = \"https://x.example\"\noutput_dir = \"public\"\n")
        .unwrap();
    assert_eq!(ok.base_url, "https://x.example");
    assert_eq!(ok.output_dir, "public");
    assert_eq!(ok.title, None);

    let placeholder =
        site::Config::parse("base_url = \"http://localhost:8080\"\noutput_dir = \"public\"\n");
    assert!(matches!(placeholder, Err(site::SiteError::BaseUrlRequired)));

    let broken = site::Config::parse("base_url = [not toml");
    assert!(matches!(broken, Err(site::SiteError::InvalidToml)));
}

#[test]
fn front_matter_is_split_between_fences() {
    let content = "+++\ntitle = \"x\"\n+++\nbody text";
    let (front_matter, rest) = Page::split_page_content("p.md", content).unwrap();
    let genetics::page::FrontMatter::Toml(fm) = front_matter;
    assert_eq!(fm, "\ntitle = \"x\"\n");
    assert_eq!(rest, content);

    let missing = Page::split_page_content("p.md", "no fences here");
    assert!(missing.is_err());
}

#[test]
fn table_of_content_absorbs_deeper_headings() {
    let h1 = Heading::new(1);
    let h2 = Heading::new(2);
    let h1b = Heading::new(1);
    let toc = make_table_of_content(vec![h1, h2, h1b]);
    assert_eq!(toc.len(), 2);
    assert_eq!(toc[0].level, 1);
    assert_eq!(toc[1].level, 1);
}

#[test]
fn content_file_filter_and_watch_decisions() {
    assert!(site::keeps_content_file("post.md", false));
    assert!(!site::keeps_content_file(".hidden.md", false));
    assert!(!site::keeps_content_file("notes.txt", false));
    assert!(site::keeps_content_file("section", true));
    assert!(site::watch_state(site::WatchStatus::Required, false));
    assert!(!site::watch_state(site::WatchStatus::Optional, false));
    assert!(site::watch_state(site::WatchStatus::Conditional(true), true));
    assert!(!site::watch_state(site::WatchStatus::Conditional(false), true));
}

#[test]
fn heading_end_without_start_is_fatal() {
    let config = plain_config();
    let reg = SyntaxRegistry::load();
    let context = RenderContext::new(&config, None, "/post/", None, Vec::new());
    let events = vec![MdEvent::End(MdTag::Heading(1))];
    let result = transform_events(events, &context, &reg);
    assert!(matches!(result, Err(RenderError::UnmatchedHeading)));
}

#[test]
fn heading_markup_escapes_id_and_classes() {
    let classes = vec!["a".to_string(), "b&c".to_string()];
    let hr = HeadingStruct::new(0, 2, None, &classes);
    assert_eq!(hr.format_to_html("X & Y"), "<h2 id=\"X &amp; Y\" class=\"a b&amp;c\">");
    let plain = HeadingStruct::new(0, 3, None, &Vec::new());
    assert_eq!(plain.format_to_html("T"), "<h3 id=\"T\">");
}

#[test]
fn inline_theme_marks_highlighted_lines_with_background() {
    let mut config = plain_config();
    config.markdown.highlight_code = true;
    config.markdown.highlight_theme = "base16-ocean.dark".to_string();
    let reg = SyntaxRegistry::load();
    let context = RenderContext::new(&config, None, "/post/", None, Vec::new());
    let markdown = "```rust,hl_lines=1\nlet x = 1;\n```";
    let result = markdown_to_html(markdown, &context, &reg).unwrap();
    // base16-ocean-dark carries the opaque background #2b303b
    assert!(result.body.contains("<mark style=\"background-color: rgb(43,48,59);\">"));
}

#[test]
fn render_content_matches_markdown_to_html() {
    let config = plain_config();
    let reg = SyntaxRegistry::load();
    let context = RenderContext::new(&config, Some("post.md"), "/post/", None, Vec::new());
    let markdown = "# Title\n\nSome *text* with [a link](https://example.com).";
    let direct = markdown_to_html(markdown, &context, &reg).unwrap();
    let context2 = RenderContext::new(&config, Some("post.md"), "/post/", None, Vec::new());
    let via_render = genetics::render_content(markdown, &context2, &reg).unwrap();
    assert_eq!(via_render.body, direct.body);
    assert_eq!(via_render.external_links, direct.external_links);
}

#[test]
fn external_link_check() {
    assert!(genetics::is_external_link("http://a.example/x"));
    assert!(genetics::is_external_link("https://a.example/x"));
    assert!(!genetics::is_external_link("#anchor"));
    assert!(!genetics::is_external_link("relative/path"));
}
