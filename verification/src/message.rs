//! The messages of the checks on whole files, and the line that shows one.

use std::path::PathBuf;

use colored::{ColoredString, Colorize};
use vstd::prelude::*;
use crate::text::{decimal, decimal_text};

verus! {

/// `std::path::PathBuf`: the name of a file. A message carries it and
/// nothing here looks into it.
#[verifier::external_type_specification]
#[verifier::external_body]
pub struct ExPathBuf(PathBuf);

/// A place in a file, by row and column.
#[derive(Debug)]
pub struct Location {
    pub row: usize,
    pub column: usize,
}

/// What a check found, and where.
#[derive(Debug)]
pub enum Message {
    TrueFalseSymbol { filename: PathBuf, location: Location },
    AnyIsNa { filename: PathBuf, location: Location },
    AnyDuplicated { filename: PathBuf, location: Location },
}

/// The line that shows a message: the file, the place in square brackets,
/// the code and the body.
pub open spec fn message_line(
    file: Seq<char>,
    row: nat,
    column: nat,
    code: Seq<char>,
    body: Seq<char>,
) -> Seq<char> {
    file + " ["@ + decimal(row) + ":"@ + decimal(column) + "] "@ + code + " "@ + body
}

/// `colored::ColoredString`: a text with the colour and style it is to be
/// shown in. Nothing here looks into it.
#[verifier::external_type_specification]
#[verifier::external_body]
pub struct ExColoredString(ColoredString);

/// `colored::Colorize::white` on `text`. Nothing is claimed of what comes
/// back.
#[verifier::external_body]
fn white(text: &str) -> (styled: ColoredString) {
    text.white()
}

/// `colored::Colorize::red` on `text`. Nothing is claimed of what comes
/// back.
#[verifier::external_body]
fn red(text: &str) -> (styled: ColoredString) {
    text.red()
}

/// `colored::Colorize::bold` on a text that has its colour. Nothing is
/// claimed of what comes back.
#[verifier::external_body]
fn bold(text: ColoredString) -> (styled: ColoredString) {
    text.bold()
}

/// `ColoredString`'s `Display`, written into a string: the text alone, or
/// the text between escape sequences, as the process colours its output or
/// not. That depends on the environment, so nothing is claimed of it.
#[verifier::external_body]
fn written(text: &ColoredString) -> (shown: String) {
    text.to_string()
}

/// `Path::to_string_lossy` on `path`, as an owned string. Nothing is
/// claimed of it.
#[verifier::external_body]
fn path_text(path: &PathBuf) -> (text: String) {
    path.to_string_lossy().into_owned()
}

/// The line that shows a message whose file name and code are already
/// written as they are to appear.
pub fn layout_line(file: &str, location: &Location, code: &str, body: &str) -> (line: String)
    ensures
        line@ == message_line(file@, location.row as nat, location.column as nat, code@, body@),
{
    let mut line = file.to_owned();
    line.append(" [");
    line.append(decimal_text(location.row).as_str());
    line.append(":");
    line.append(decimal_text(location.column).as_str());
    line.append("] ");
    line.append(code);
    line.append(" ");
    line.append(body);
    line
}

impl Message {
    /// The short identifier of the message.
    pub open spec fn code_text(&self) -> Seq<char> {
        match self {
            Message::TrueFalseSymbol { .. } => "T-F-symbols"@,
            Message::AnyIsNa { .. } => "any-na"@,
            Message::AnyDuplicated { .. } => "any-duplicated"@,
        }
    }

    /// The text of the message.
    pub open spec fn body_text(&self) -> Seq<char> {
        match self {
            Message::TrueFalseSymbol {
                ..
            } => "`T` and `F` can be confused with variable names. Spell `TRUE` and `FALSE` entirely instead."@,
            Message::AnyIsNa {
                ..
            } => "`any(is.na(...))` is inefficient. Use `anyNA(...)` instead."@,
            Message::AnyDuplicated {
                ..
            } => "`any(duplicated(...))` is inefficient. Use `anyDuplicated(...) > 0` instead."@,
        }
    }

    /// The place that the message speaks of.
    pub open spec fn place(&self) -> Location {
        match self {
            Message::TrueFalseSymbol { location, .. } => *location,
            Message::AnyIsNa { location, .. } => *location,
            Message::AnyDuplicated { location, .. } => *location,
        }
    }

    /// Short ID for the message.
    pub fn code(&self) -> (code: &'static str)
        ensures
            code@ == self.code_text(),
    {
        match self {
            Message::TrueFalseSymbol { .. } => "T-F-symbols",
            Message::AnyIsNa { .. } => "any-na",
            Message::AnyDuplicated { .. } => "any-duplicated",
        }
    }

    /// The body text for the message.
    pub fn body(&self) -> (body: &'static str)
        ensures
            body@ == self.body_text(),
    {
        match self {
            Message::TrueFalseSymbol {
                ..
            } => "`T` and `F` can be confused with variable names. Spell `TRUE` and `FALSE` entirely instead.",
            Message::AnyIsNa {
                ..
            } => "`any(is.na(...))` is inefficient. Use `anyNA(...)` instead.",
            Message::AnyDuplicated {
                ..
            } => "`any(duplicated(...))` is inefficient. Use `anyDuplicated(...) > 0` instead.",
        }
    }

    /// The line that shows the message on a terminal: the file name in bold
    /// white, the place, the code in bold red, and the body.
    ///
    /// How the file name and the code are written depends on the path and
    /// on whether the process colours its output; the rest of the line is
    /// fixed.
    pub fn render(&self) -> (line: String)
        ensures
            exists|file: Seq<char>, code: Seq<char>|
                line@ == #[trigger] message_line(
                    file,
                    self.place().row as nat,
                    self.place().column as nat,
                    code,
                    self.body_text(),
                ),
    {
        let (filename, location) = match self {
            Message::TrueFalseSymbol { filename, location } => (filename, location),
            Message::AnyIsNa { filename, location } => (filename, location),
            Message::AnyDuplicated { filename, location } => (filename, location),
        };
        let file = written(&bold(white(path_text(filename).as_str())));
        let code = written(&bold(red(self.code())));
        let line = layout_line(file.as_str(), location, code.as_str(), self.body());
        assert(line@ == message_line(
            file@,
            self.place().row as nat,
            self.place().column as nat,
            code@,
            self.body_text(),
        ));
        line
    }
}

} // verus!
