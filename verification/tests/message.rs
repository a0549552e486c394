use std::path::PathBuf;

use jarl_core::message::{layout_line, Location, Message};
use jarl_core::text::{decimal_text, join};

fn at(row: usize, column: usize) -> Location {
    Location { row, column }
}

#[test]
fn codes_name_the_checks() {
    let file = || PathBuf::from("R/code.R");
    assert_eq!(Message::TrueFalseSymbol { filename: file(), location: at(1, 1) }.code(), "T-F-symbols");
    assert_eq!(Message::AnyIsNa { filename: file(), location: at(1, 1) }.code(), "any-na");
    assert_eq!(Message::AnyDuplicated { filename: file(), location: at(1, 1) }.code(), "any-duplicated");
}

#[test]
fn bodies_say_what_to_write_instead() {
    let file = || PathBuf::from("R/code.R");
    assert_eq!(
        Message::TrueFalseSymbol { filename: file(), location: at(1, 1) }.body(),
        "`T` and `F` can be confused with variable names. Spell `TRUE` and `FALSE` entirely instead."
    );
    assert_eq!(
        Message::AnyIsNa { filename: file(), location: at(1, 1) }.body(),
        "`any(is.na(...))` is inefficient. Use `anyNA(...)` instead."
    );
    assert_eq!(
        Message::AnyDuplicated { filename: file(), location: at(1, 1) }.body(),
        "`any(duplicated(...))` is inefficient. Use `anyDuplicated(...) > 0` instead."
    );
}

#[test]
fn code_and_body_do_not_depend_on_the_place() {
    let one = Message::AnyIsNa { filename: PathBuf::from("a.R"), location: at(1, 2) };
    let other = Message::AnyIsNa { filename: PathBuf::from("b/c.R"), location: at(300, 4) };
    assert_eq!(one.code(), other.code());
    assert_eq!(one.body(), other.body());
}

#[test]
fn line_is_laid_out_from_its_parts() {
    assert_eq!(layout_line("a.R", &at(3, 14), "any-na", "body text"), "a.R [3:14] any-na body text");
    assert_eq!(layout_line("", &at(0, 0), "", ""), " [0:0]  ");
    assert_eq!(
        layout_line("\u{1b}[1;37ma.R\u{1b}[0m", &at(120, 7), "\u{1b}[1;31mx\u{1b}[0m", "b"),
        "\u{1b}[1;37ma.R\u{1b}[0m [120:7] \u{1b}[1;31mx\u{1b}[0m b"
    );
}

#[test]
fn message_is_shown_with_and_without_colours() {
    let message = Message::AnyIsNa { filename: PathBuf::from("R/code.R"), location: at(12, 5) };
    colored::control::set_override(false);
    assert_eq!(
        message.render(),
        "R/code.R [12:5] any-na `any(is.na(...))` is inefficient. Use `anyNA(...)` instead."
    );
    colored::control::set_override(true);
    let shown = message.render();
    assert_ne!(
        shown,
        "R/code.R [12:5] any-na `any(is.na(...))` is inefficient. Use `anyNA(...)` instead."
    );
    assert!(shown.starts_with("\u{1b}["));
    assert!(shown.contains("R/code.R"));
    assert!(shown.contains("\u{1b}[0m [12:5] \u{1b}["));
    assert!(shown.contains("any-na"));
    assert!(shown.ends_with("\u{1b}[0m `any(is.na(...))` is inefficient. Use `anyNA(...)` instead."));
    colored::control::unset_override();

    let message = Message::TrueFalseSymbol { filename: PathBuf::from("x.R"), location: at(1, 1) };
    colored::control::set_override(false);
    assert_eq!(
        message.render(),
        "x.R [1:1] T-F-symbols `T` and `F` can be confused with variable names. Spell `TRUE` and `FALSE` entirely instead."
    );
    let message = Message::AnyDuplicated { filename: PathBuf::from("x.R"), location: at(0, 1000) };
    assert_eq!(
        message.render(),
        "x.R [0:1000] any-duplicated `any(duplicated(...))` is inefficient. Use `anyDuplicated(...) > 0` instead."
    );
    colored::control::unset_override();
}

#[test]
fn numbers_are_written_in_decimal() {
    assert_eq!(decimal_text(0), "0");
    assert_eq!(decimal_text(7), "7");
    assert_eq!(decimal_text(9), "9");
    assert_eq!(decimal_text(10), "10");
    assert_eq!(decimal_text(99), "99");
    assert_eq!(decimal_text(100), "100");
    assert_eq!(decimal_text(1234567890), "1234567890");
    assert_eq!(decimal_text(usize::MAX), usize::MAX.to_string());
}

#[test]
fn parts_are_joined_with_the_separator_between_them() {
    let parts = |texts: &[&str]| texts.iter().map(|t| t.to_string()).collect::<Vec<String>>();
    assert_eq!(join(&parts(&[]), ", "), "");
    assert_eq!(join(&parts(&["a"]), ", "), "a");
    assert_eq!(join(&parts(&["a", "b"]), ", "), "a, b");
    assert_eq!(join(&parts(&["a", "", "c"]), ", "), "a, , c");
    assert_eq!(join(&parts(&["a", "b", "c"]), ""), "abc");
    assert_eq!(join(&parts(&["", ""]), "-"), "-");
}
