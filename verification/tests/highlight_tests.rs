use genetics::highlight::highlight_code;
use genetics::registry::SyntaxRegistry;

#[test]
fn test_highlight_rust() {
    let rust_code = r#"
        fn main() {
            println!("Hello, world!");
        }
        "#;

    let reg = SyntaxRegistry::load();
    let highlighted = highlight_code(rust_code, Some("rust"), &reg).unwrap();
    assert!(highlighted.contains("fn"));
    assert!(highlighted.contains("main"));
    assert!(highlighted.contains("println!"));
    assert!(highlighted.contains("language-rust"));
}

#[test]
fn test_highlight_unknown_language() {
    let code = "just some plain text";
    let reg = SyntaxRegistry::load();
    let highlighted = highlight_code(code, None, &reg).unwrap();
    assert!(highlighted.contains("just some plain text"));
    assert!(highlighted.contains("language-text"));
}
