//! What a rule reports: a diagnostic, and the fix it may carry.

use vstd::prelude::*;
use crate::range::Range;

verus! {

/// A proposed replacement of the offsets `[start, end)` by `content`.
///
/// A fix marked `to_skip` was computed but must never be applied. A fix
/// without content over the interval `[0, 0)` says that the construct was
/// diagnosed and that no safe rewrite is known.
#[derive(Debug)]
pub struct Fix {
    pub content: String,
    pub start: usize,
    pub end: usize,
    pub to_skip: bool,
}

/// The mathematical value of a [`Fix`].
pub struct FixView {
    pub content: Seq<char>,
    pub start: nat,
    pub end: nat,
    pub to_skip: bool,
}

impl FixView {
    /// The fix that proposes nothing.
    pub open spec fn empty() -> FixView {
        FixView { content: Seq::<char>::empty(), start: 0, end: 0, to_skip: false }
    }

    /// One of the two fixes ends where, or before, the other starts.
    pub open spec fn apart(self, other: FixView) -> bool {
        self.end <= other.start || other.end <= self.start
    }

    /// The fix may be realised in a text of `len` offsets: it is not marked
    /// to be skipped, it has content, and its interval lies inside the text.
    pub open spec fn applicable(self, len: nat) -> bool {
        &&& !self.to_skip
        &&& self.content.len() > 0
        &&& self.start <= self.end <= len
    }
}

impl View for Fix {
    type V = FixView;

    open spec fn view(&self) -> FixView {
        FixView {
            content: self.content@,
            start: self.start as nat,
            end: self.end as nat,
            to_skip: self.to_skip,
        }
    }
}

impl Fix {
    /// The fix that proposes nothing.
    pub fn empty() -> (f: Fix)
        ensures
            f@ == FixView::empty(),
    {
        Fix { content: String::new(), start: 0, end: 0, to_skip: false }
    }

    /// A copy of the fix.
    pub fn duplicate(&self) -> (f: Fix)
        ensures
            f == *self,
    {
        Fix {
            content: self.content.clone(),
            start: self.start,
            end: self.end,
            to_skip: self.to_skip,
        }
    }

    /// The interval that the fix replaces, where it is well formed.
    pub fn range(&self) -> (r: Option<Range>)
        ensures
            r == if self.start <= self.end {
                Some(Range { start: self.start, end: self.end })
            } else {
                None::<Range>
            },
    {
        Range::new(self.start, self.end)
    }
}

/// The views of a sequence of fixes, in order.
pub open spec fn fix_views(fixes: Seq<Fix>) -> Seq<FixView> {
    Seq::new(fixes.len(), |i: int| fixes[i]@)
}

/// What a rule says of itself: its name, what is wrong, and what to do.
pub trait Violation {
    spec fn name_text(&self) -> Seq<char>;

    spec fn body_text(&self) -> Seq<char>;

    spec fn suggestion_text(&self) -> Option<Seq<char>>;

    /// The rule's identifier.
    fn name(&self) -> (s: String)
        ensures
            s@ == self.name_text(),
    ;

    /// The message shown for a match.
    fn body(&self) -> (s: String)
        ensures
            s@ == self.body_text(),
    ;

    /// The advice shown with the message, if the rule has any.
    fn suggestion(&self) -> (s: Option<String>)
        ensures
            text_of(s) == self.suggestion_text(),
    ;
}

/// The characters of an optional string.
pub open spec fn text_of(s: Option<String>) -> Option<Seq<char>> {
    match s {
        Some(t) => Some(t@),
        None => None,
    }
}

/// The texts of a rule, taken from its [`Violation`].
#[derive(Debug)]
pub struct ViolationData {
    pub name: String,
    pub body: String,
    pub suggestion: Option<String>,
}

/// The mathematical value of a [`ViolationData`].
pub struct ViolationView {
    pub name: Seq<char>,
    pub body: Seq<char>,
    pub suggestion: Option<Seq<char>>,
}

impl View for ViolationData {
    type V = ViolationView;

    open spec fn view(&self) -> ViolationView {
        ViolationView {
            name: self.name@,
            body: self.body@,
            suggestion: text_of(self.suggestion),
        }
    }
}

/// The texts that a rule reports, as one value.
pub open spec fn violation_view<T: Violation>(rule: &T) -> ViolationView {
    ViolationView {
        name: rule.name_text(),
        body: rule.body_text(),
        suggestion: rule.suggestion_text(),
    }
}

/// A report that a rule matched the construct at `range`.
#[derive(Debug)]
pub struct Diagnostic {
    pub message: ViolationData,
    pub range: Range,
    pub fix: Fix,
}

/// The mathematical value of a [`Diagnostic`].
pub struct DiagnosticView {
    pub message: ViolationView,
    pub range: Range,
    pub fix: FixView,
}

impl View for Diagnostic {
    type V = DiagnosticView;

    open spec fn view(&self) -> DiagnosticView {
        DiagnosticView { message: self.message@, range: self.range, fix: self.fix@ }
    }
}

impl Diagnostic {
    /// The report of `rule` on the construct at `range`, carrying `fix`.
    pub fn new<T: Violation>(rule: T, range: Range, fix: Fix) -> (d: Diagnostic)
        ensures
            d@ == (DiagnosticView { message: violation_view(&rule), range, fix: fix@ }),
            d.fix == fix,
    {
        let message = ViolationData {
            name: rule.name(),
            body: rule.body(),
            suggestion: rule.suggestion(),
        };
        Diagnostic { message, range, fix }
    }
}

} // verus!
