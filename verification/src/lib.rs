//! Call-argument resolution and autofix synthesis for lint rules over R calls.
//!
//! A rule looks at one call of an already parsed source file, binds the
//! actual arguments it cares about, and proposes a replacement text for the
//! call. The proposals of all rules are then merged into one rewritten text
//! in which no two replacements overlap.
//!
//! All offsets count characters of the source text.

pub mod range;
pub mod diagnostic;
pub mod fix;
pub mod call;
pub mod arguments;
pub mod text;
pub mod expect_match;
pub mod message;
pub mod rules;
