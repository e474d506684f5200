//! Text wrapping and block building.

use newsminal::blocks::{Boxed, Lead, Paragraph, Subtitle, Title};
use newsminal::errors::LayoutError;
use newsminal::wrap::wrap_text;

// --- wrapping ---

#[test]
fn frontend_one_word() {
    let right = vec!["TEST"];
    assert_eq!(wrap_text("TEST", 10), right);
}

#[test]
fn frontend_empty_line() {
    let right = vec![""];
    assert_eq!(wrap_text("", 10), right);
}

#[test]
fn frontend_two_line() {
    let right = vec!["TEST", "TEST"];
    assert_eq!(wrap_text("TEST TEST", 5), right);
}

#[test]
fn too_short() {
    // A word at least as wide as the width flushes the (empty) line first,
    // then is emitted whole as an oversized line.
    let right = vec!["", "TEST", "TEST"];
    assert_eq!(wrap_text("TEST TEST", 3), right);
}

#[test]
fn one_word() {
    let left = wrap_text("TEST", 10);
    assert!(left.iter().all(|row| row.chars().count() <= 10));
    assert_eq!(left, vec!["TEST"]);
}

#[test]
fn empty_line() {
    let left = wrap_text("", 10);
    assert!(left.iter().all(|row| row.chars().count() <= 10));
    assert_eq!(left, vec![""]);
}

#[test]
fn two_line() {
    let left = wrap_text("TEST TEST", 5);
    assert!(left.iter().all(|row| row.chars().count() <= 10));
    assert_eq!(left, vec!["TEST", "TEST"]);
}

#[test]
fn width_too_short() {
    // An oversized single word is not split: each long row is one word.
    let left = wrap_text("TEST TEST", 3);
    assert_eq!(left, vec!["", "TEST", "TEST"]);
    assert!(left.iter().all(|row| row.chars().count() <= 3 || !row.contains(' ')));
}

#[test]
fn one_word_width_too_short() {
    let left = wrap_text("TEST", 3);
    assert_eq!(left, vec!["", "TEST"]);
    assert!(left.iter().all(|row| row.chars().count() <= 3 || !row.contains(' ')));
}

#[test]
fn rewrap_is_idempotent() {
    let first = wrap_text("alpha beta gamma delta epsilon", 11);
    let rejoined = first.join(" ");
    assert_eq!(wrap_text(&rejoined, 11), first);
}

#[test]
fn rewrap_is_idempotent_oversized() {
    let first = wrap_text("considerable words", 7);
    let rejoined = first.join(" ");
    assert_eq!(wrap_text(&rejoined, 7), first);
}

// --- paragraph ---

#[test]
fn tests_one_word() {
    let left = Paragraph::build("TEST", 10).unwrap();
    assert!(left.iter().all(|row| row.chars().count() <= 10));
    assert_eq!(left, vec!["", "    TEST"]);
}

#[test]
fn empty() {
    let left = Paragraph::build("", 10).unwrap();
    assert!(left.iter().all(|row| row.chars().count() <= 10));
    assert_eq!(left, vec!["", ""]);
}

#[test]
fn tests_two_line() {
    let left = Paragraph::build("TEST TEST", 10).unwrap();
    assert!(left.iter().all(|row| row.chars().count() <= 10));
    assert_eq!(left, vec!["", "    TEST", "TEST"]);
}

#[test]
fn cant_wrap() {
    // The indent alone reaches the width: the indent is flushed as its own
    // rows and the word is emitted whole.
    let left = Paragraph::build("TEST", 3).unwrap();
    assert_eq!(left, vec!["", "  ", "", "TEST"]);
}

// --- title, lead, subtitle ---

#[test]
fn title_centers_lines() {
    let left = Title::build("TEST", 10).unwrap();
    assert_eq!(left, vec!["", "   TEST   "]);
}

#[test]
fn title_too_narrow() {
    assert_eq!(Title::build("OVERLONG", 4), Err(LayoutError::TooNarrow));
}

#[test]
fn lead_matches_paragraph() {
    assert_eq!(Lead::build("TEST TEST", 10).unwrap(), Paragraph::build("TEST TEST", 10).unwrap());
}

#[test]
fn subtitle_adds_blank() {
    let left = Subtitle::build("TEST", 10).unwrap();
    assert_eq!(left, vec!["", "", "    TEST"]);
}

// --- boxed ---

#[test]
fn boxed_one_word() {
    let left = Boxed::build("TEST", 10).unwrap();
    assert!(left.iter().all(|row| row.chars().count() == 10));
    let right = vec![
        "          ",
        " \u{250c}\u{2500}\u{2500}\u{2500}\u{2500}\u{2500}\u{2500}\u{2510} ",
        " \u{2502} TEST \u{2502} ",
        " \u{2514}\u{2500}\u{2500}\u{2500}\u{2500}\u{2500}\u{2500}\u{2518} ",
    ];
    assert_eq!(left, right);
}

#[test]
fn tests_empty() {
    let left = Boxed::build("", 10).unwrap();
    assert!(left.iter().all(|row| row.chars().count() == 10));
    let right = vec![
        "          ",
        " \u{250c}\u{2500}\u{2500}\u{2500}\u{2500}\u{2500}\u{2500}\u{2510} ",
        " \u{2502}      \u{2502} ",
        " \u{2514}\u{2500}\u{2500}\u{2500}\u{2500}\u{2500}\u{2500}\u{2518} ",
    ];
    assert_eq!(left, right);
}

#[test]
fn two_lines() {
    let left = Boxed::build("TEST TEST", 10).unwrap();
    assert!(left.iter().all(|row| row.chars().count() == 10));
    let right = vec![
        "          ",
        " \u{250c}\u{2500}\u{2500}\u{2500}\u{2500}\u{2500}\u{2500}\u{2510} ",
        " \u{2502} TEST \u{2502} ",
        " \u{2502} TEST \u{2502} ",
        " \u{2514}\u{2500}\u{2500}\u{2500}\u{2500}\u{2500}\u{2500}\u{2518} ",
    ];
    assert_eq!(left, right);
}

#[test]
fn two_paragraphs() {
    let left = Boxed::build("TEST\nTEST", 10).unwrap();
    assert!(left.iter().all(|row| row.chars().count() == 10));
    let right = vec![
        "          ",
        " \u{250c}\u{2500}\u{2500}\u{2500}\u{2500}\u{2500}\u{2500}\u{2510} ",
        " \u{2502} TEST \u{2502} ",
        " \u{2502}      \u{2502} ",
        " \u{2502} TEST \u{2502} ",
        " \u{2514}\u{2500}\u{2500}\u{2500}\u{2500}\u{2500}\u{2500}\u{2518} ",
    ];
    assert_eq!(left, right);
}

#[test]
fn boxed_row_count() {
    // One blank row, one top border, wrapped interior rows, one bottom border.
    let rows = Boxed::build("TEST TEST TEST", 12).unwrap();
    let interior = rows.len() - 3;
    assert_eq!(rows.len(), 3 + interior);
    assert!(rows.iter().all(|row| row.chars().count() == 12));
}

#[test]
fn cant_draw_the_box() {
    assert_eq!(Boxed::build("asd", 3), Err(LayoutError::TooNarrow));
}

#[test]
fn cant_pad_the_box() {
    assert_eq!(Boxed::build("asd", 5), Err(LayoutError::TooNarrow));
}

#[test]
fn cant_fit_in_the_box() {
    assert_eq!(Boxed::build("asd", 7), Err(LayoutError::TooNarrow));
}

#[test]
fn layout_error_messages() {
    assert_eq!(LayoutError::TooNarrow.message(), "width too small to render the component");
    assert_eq!(LayoutError::Overflow.message(), "content too large to lay out");
}
