//! A call of the source, as the rules read it.
//!
//! The values here hold what a rule reads of a call node of the syntax
//! tree: names, texts, intervals, and whether a mandatory child is there.

use vstd::prelude::*;
use crate::range::Range;

verus! {

/// Why a mandatory child of a node could not be read.
#[derive(Clone, Copy, Debug, PartialEq, Eq, Structural)]
pub enum TreeFault {
    /// The child is not in the tree.
    MissingRequiredChild,
    /// A metavariable stands where the child should be.
    UnexpectedMetavariable,
}

/// The function that a call names.
#[derive(Debug)]
pub struct Callee {
    /// The function's name, without a namespace.
    pub name: String,
    /// The namespace with its operator, such as `pkg::`, where the call
    /// gives one.
    pub namespace_prefix: Option<String>,
}

/// An expression that stands as the value of an argument.
#[derive(Debug)]
pub struct Expression {
    /// The expression's source text, without surrounding blanks.
    pub text: String,
    /// The call that the expression is, if it is one.
    pub call: Option<Box<Call>>,
}

/// An entry of a call's argument list.
#[derive(Debug)]
pub struct Argument {
    /// The name before `=`, absent for a positional argument.
    pub name: Option<String>,
    /// The value, absent where the source gives none, as in `f(x = )`.
    pub value: Option<Expression>,
    /// The interval that the argument occupies.
    pub range: Range,
    /// The argument's source text, name included, without surrounding
    /// blanks.
    pub text: String,
}

/// A function call with its argument list.
#[derive(Debug)]
pub struct Call {
    /// The interval of the call, without surrounding blanks.
    pub range: Range,
    /// The function that is called.
    pub function: Result<Callee, TreeFault>,
    /// The actual arguments, in source order.
    pub arguments: Result<Vec<Argument>, TreeFault>,
    /// Whether a comment stands inside the call's interval.
    pub has_comments: bool,
}

impl Argument {
    /// The argument carries exactly the name `name`.
    pub open spec fn named(&self, name: Seq<char>) -> bool {
        match self.name {
            Some(n) => n@ == name,
            None => false,
        }
    }

    /// The argument carries no name.
    pub open spec fn positional(&self) -> bool {
        self.name is None
    }
}

} // verus!
