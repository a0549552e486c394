//! The rules that the library knows, by name.

use vstd::prelude::*;
use crate::call::{Call, TreeFault};
use crate::diagnostic::{Diagnostic, DiagnosticView};
use crate::expect_match::{expect_match, expect_match_view, report_view};
use crate::text::reads_as;

verus! {

/// A rule of the library.
#[derive(Clone, Copy, Debug, PartialEq, Eq, Structural)]
pub enum Rule {
    /// `expect_true(grepl(...))` is better written `expect_match(...)`.
    ExpectMatch,
}

impl Rule {
    /// The name by which the rule is selected.
    pub open spec fn name_text(self) -> Seq<char> {
        match self {
            Rule::ExpectMatch => "expect_match"@,
        }
    }

    /// What the rule reports of `call`.
    pub open spec fn report(self, call: &Call) -> Result<Option<DiagnosticView>, TreeFault> {
        match self {
            Rule::ExpectMatch => expect_match_view(call),
        }
    }

    /// The rule of the name `name`, if there is one.
    pub fn from_name(name: &str) -> (rule: Option<Rule>)
        ensures
            rule == if name@ == Rule::ExpectMatch.name_text() {
                Some(Rule::ExpectMatch)
            } else {
                None::<Rule>
            },
    {
        let wanted = name.to_owned();
        if reads_as(&wanted, "expect_match") {
            Some(Rule::ExpectMatch)
        } else {
            None
        }
    }

    /// The name by which the rule is selected.
    pub fn name(&self) -> (name: String)
        ensures
            name@ == self.name_text(),
    {
        match self {
            Rule::ExpectMatch => "expect_match".to_owned(),
        }
    }

    /// Whether the rule runs where no rule has been selected. `expect_match`
    /// does not: it is selected by its name.
    pub fn enabled_by_default(&self) -> (enabled: bool)
        ensures
            enabled == match *self {
                Rule::ExpectMatch => false,
            },
    {
        match self {
            Rule::ExpectMatch => false,
        }
    }

    /// What the rule reports of `call`.
    pub fn evaluate(&self, call: &Call) -> (out: Result<Option<Diagnostic>, TreeFault>)
        ensures
            report_view(out) == self.report(call),
    {
        match self {
            Rule::ExpectMatch => expect_match(call),
        }
    }
}

} // verus!
