use recall::text::is_white_space_char;
use recall::tokenize;

#[test]
fn test_tokenize_text() {
    let text = "Rust is fast and memory safe";

    let tokens = tokenize(text);

    assert_eq!(tokens, vec!["Rust", "is", "fast", "and", "memory", "safe"]);
}

#[test]
fn tokenize_collapses_runs_of_white_space() {
    let tokens = tokenize("  one\ttwo\n\n three \u{3000}four  ");
    assert_eq!(tokens, vec!["one", "two", "three", "four"]);
}

#[test]
fn tokenize_empty_and_blank_texts() {
    assert!(tokenize("").is_empty());
    assert!(tokenize(" \t\n").is_empty());
}

#[test]
fn tokenize_keeps_non_ascii_words() {
    let tokens = tokenize("héllo wörld");
    assert_eq!(tokens, vec!["héllo", "wörld"]);
}

#[test]
fn white_space_agrees_with_std_on_every_char() {
    for code in 0u32..=0x10ffff {
        if let Some(c) = char::from_u32(code) {
            assert_eq!(is_white_space_char(c), c.is_whitespace(), "U+{:04X}", code);
        }
    }
}
