use austeur_core::analyzer::analyze;
use austeur_core::document::Document;
use austeur_core::text::count_words;
use austeur_core::text::is_whitespace;

#[test]
fn document_starts_empty_at_revision_zero() {
    let d = Document::new();
    assert_eq!(d.text(), "");
    assert_eq!(d.revision(), 0);
}

#[test]
fn document_set_text_advances_revision() {
    let mut d = Document::new();
    d.set_text("first".to_string());
    assert_eq!(d.text(), "first");
    assert_eq!(d.revision(), 1);
    d.set_text("second".to_string());
    assert_eq!(d.text(), "second");
    assert_eq!(d.revision(), 2);
}

#[test]
fn document_feeds_the_analyzer() {
    let mut d = Document::new();
    d.set_text("# Chapter\n\nwords in a row".to_string());
    let r = analyze(d.text());
    assert_eq!(r.headings.len(), 1);
    assert_eq!(r.headings[0].text, "Chapter");
    assert_eq!(r.word_count, 6);
}

#[test]
fn count_words_counts_runs() {
    assert_eq!(count_words(""), 0);
    assert_eq!(count_words("one"), 1);
    assert_eq!(count_words("one two"), 2);
    assert_eq!(count_words("  spaced   out  "), 2);
    assert_eq!(count_words("line\nbreaks\ncount"), 3);
}

#[test]
fn is_whitespace_matches_unicode_blanks() {
    assert!(is_whitespace(' '));
    assert!(is_whitespace('\t'));
    assert!(is_whitespace('\n'));
    assert!(is_whitespace('\u{2003}'));
    assert!(is_whitespace('\u{3000}'));
    assert!(!is_whitespace('a'));
    assert!(!is_whitespace('#'));
    assert!(!is_whitespace('\u{200b}'));
}
