use ovim_core::auto_indent::{
    opening_delimiter_at_end, plan, scan_line, Delimiter, LexState, LexicalProfile, LineScan,
};
use ovim_core::buffer::Buffer;
use ovim_core::indentation::IndentOptions;
use ovim_core::syntax::Language;

fn scans(lines: &[&str], language: Option<Language>) -> Vec<LineScan> {
    let profile = LexicalProfile::for_language(language);
    let mut state = LexState::default();
    lines
        .iter()
        .map(|line| scan_line(line, &profile, &mut state))
        .collect()
}

#[test]
fn ignores_delimiters_in_strings_and_comments() {
    let result = scans(
        &["fn main() {", "let s = \"}\"; // {", "/* [ */", "}"],
        Some(Language::Rust),
    );

    assert_eq!(
        result[0].delimiters,
        vec![
            Delimiter::Open('('),
            Delimiter::Close(')'),
            Delimiter::Open('{')
        ]
    );
    assert!(result[1].delimiters.is_empty());
    assert!(result[2].delimiters.is_empty());
    assert_eq!(result[3].delimiters, vec![Delimiter::Close('}')]);
}

#[test]
fn protects_multiline_literal_bodies() {
    let result = scans(
        &[
            "let text = r#\"{",
            "  literal indentation",
            "}\"#;",
            "call();",
        ],
        Some(Language::Rust),
    );

    assert!(!result[0].literal_continuation);
    assert!(result[1].literal_continuation);
    assert!(result[2].literal_continuation);
    assert!(!result[3].literal_continuation);
    assert!(result[..3].iter().all(|line| line.delimiters.is_empty()));
    assert_eq!(
        result[3].delimiters,
        vec![Delimiter::Open('('), Delimiter::Close(')')]
    );
}

#[test]
fn uses_hash_comments_only_for_relevant_languages() {
    let python = scans(&["# {"], Some(Language::Python));
    let rust = scans(&["# {"], Some(Language::Rust));

    assert!(python[0].delimiters.is_empty());
    assert_eq!(rust[0].delimiters, vec![Delimiter::Open('{')]);
}

#[test]
fn rust_lifetimes_do_not_hide_following_delimiters() {
    let result = scans(&["fn get<'a>() {"], Some(Language::Rust));

    assert_eq!(
        result[0].delimiters,
        vec![
            Delimiter::Open('('),
            Delimiter::Close(')'),
            Delimiter::Open('{')
        ]
    );
}

#[test]
fn finds_opening_delimiter_before_a_trailing_comment() {
    let mut buffer = Buffer::new_from_str("fn main() { // reason\n");
    buffer.set_file_path("/tmp/main.rs".to_string());

    assert_eq!(
        opening_delimiter_at_end(&buffer, 0, "fn main() { // reason"),
        Some('{')
    );
}

#[test]
fn ignores_opening_delimiter_in_a_comment() {
    let mut buffer = Buffer::new_from_str("// {\n");
    buffer.set_file_path("/tmp/main.rs".to_string());

    assert_eq!(opening_delimiter_at_end(&buffer, 0, "// {"), None);
}

fn four_spaces() -> IndentOptions {
    IndentOptions {
        tab_width: 4,
        shift_width: 4,
        soft_tab_stop: 4,
        expand_tab: true,
        copy_indent: false,
    }
}

#[test]
fn plan_indents_a_nested_block() {
    let mut buffer = Buffer::new_from_str("fn a() {\nif b {\nc();\n}\n}\n");
    buffer.set_file_path("/tmp/a.rs".to_string());
    let planned = plan(&buffer, 0, 5, four_spaces());
    let found: Vec<(usize, Option<&str>)> = planned
        .iter()
        .map(|p| (p.line, p.replacement.as_deref()))
        .collect();
    assert!(found.contains(&(1, Some("    "))));
    assert!(found.contains(&(2, Some("        "))));
    assert!(found.contains(&(3, Some("    "))));
}

#[test]
fn block_comments_hide_delimiters_across_lines() {
    let result = scans(&["/* {", "} */ ("], Some(Language::Rust));
    assert!(result[0].delimiters.is_empty());
    assert_eq!(result[1].delimiters, vec![Delimiter::Open('(')]);
}

#[test]
fn two_lifetimes_hide_nothing_between_them() {
    let profile = LexicalProfile::for_language(Some(Language::Rust));
    let mut state = LexState::default();
    let scan = scan_line("fn get<'a>(x: &'a str) {", &profile, &mut state);
    assert_eq!(
        scan.delimiters,
        vec![
            Delimiter::Open('('),
            Delimiter::Close(')'),
            Delimiter::Open('{')
        ]
    );
    let scan = scan_line("f('{', '\\'', '\\u{7D}', b'(');", &profile, &mut state);
    assert_eq!(
        scan.delimiters,
        vec![Delimiter::Open('('), Delimiter::Close(')')]
    );
}
