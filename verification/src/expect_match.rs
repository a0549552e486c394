//! The rule that prefers `expect_match(x, pattern)` to
//! `expect_true(grepl(pattern, x))`.
//!
//! `expect_match()` says what is tested and gives better messages when a
//! test fails. The rule reports every call of `expect_true()` whose
//! `object` is a call of `grepl()` with both `pattern` and `x` given. It
//! proposes a rewrite where `expect_true()` has no other argument.

use vstd::prelude::*;
use crate::arguments::{bound_index, get_arg_by_name_then_position};
use crate::call::{Argument, Call, Callee, TreeFault};
use crate::diagnostic::{violation_view, Diagnostic, DiagnosticView, Fix, FixView, Violation};
use crate::fix::{
    applied_fixes, applied_fixes_are_applicable, rewritten, unapplicable_fixes_change_nothing,
};
use crate::range::Range;
use crate::text::{join, joined, reads_as, texts};

verus! {

/// The rule itself.
#[derive(Clone, Copy, Debug)]
pub struct ExpectMatch;

impl Violation for ExpectMatch {
    open spec fn name_text(&self) -> Seq<char> {
        "expect_match"@
    }

    open spec fn body_text(&self) -> Seq<char> {
        "`expect_true(grepl(...))` is not as clear as expect_match(...)."@
    }

    open spec fn suggestion_text(&self) -> Option<Seq<char>> {
        Some("Use `expect_match(...)` instead."@)
    }

    fn name(&self) -> (s: String) {
        "expect_match".to_owned()
    }

    fn body(&self) -> (s: String) {
        "`expect_true(grepl(...))` is not as clear as expect_match(...).".to_owned()
    }

    fn suggestion(&self) -> (s: Option<String>) {
        Some("Use `expect_match(...)` instead.".to_owned())
    }
}

/// The call that is handed to `expect_true()` as its `object`: none where
/// `call` is no call of `expect_true`, where `object` is not given or has
/// no value, or where its value is no call.
pub open spec fn tested_call(call: &Call) -> Result<Option<Call>, TreeFault> {
    match call.function {
        Err(fault) => Err(fault),
        Ok(callee) => if callee.name@ != "expect_true"@ {
            Ok(None)
        } else {
            match call.arguments {
                Err(fault) => Err(fault),
                Ok(args) => match bound_index(args@, "object"@, 1) {
                    None => Ok(None),
                    Some(object) => match args@[object].value {
                        None => Ok(None),
                        Some(value) => match value.call {
                            None => Ok(None),
                            Some(inner) => Ok(Some(*inner)),
                        },
                    },
                },
            }
        },
    }
}

/// The indices of the arguments bound to `pattern` and to `x` in a call of
/// `grepl()`: none where `inner` is no call of `grepl`, or where one of the
/// two is not given or has no value.
pub open spec fn grepl_operands(inner: &Call) -> Result<Option<(int, int)>, TreeFault> {
    match inner.function {
        Err(fault) => Err(fault),
        Ok(callee) => if callee.name@ != "grepl"@ {
            Ok(None)
        } else {
            match inner.arguments {
                Err(fault) => Err(fault),
                Ok(args) => match (
                    bound_index(args@, "pattern"@, 1),
                    bound_index(args@, "x"@, 2),
                ) {
                    (Some(pattern), Some(x)) => if args@[pattern].value is Some
                        && args@[x].value is Some {
                        Ok(Some((pattern, x)))
                    } else {
                        Ok(None)
                    },
                    _ => Ok(None),
                },
            }
        },
    }
}

/// The texts of the arguments whose interval is neither `first` nor
/// `second`, in source order.
pub open spec fn other_texts(args: Seq<Argument>, first: Range, second: Range) -> Seq<Seq<char>>
    decreases args.len(),
{
    if args.len() == 0 {
        Seq::empty()
    } else {
        let before = other_texts(args.drop_last(), first, second);
        if args.last().range == first || args.last().range == second {
            before
        } else {
            before.push(args.last().text@)
        }
    }
}

/// The namespace prefix of a callee, empty where it has none.
pub open spec fn prefix_text(callee: &Callee) -> Seq<char> {
    match callee.namespace_prefix {
        Some(prefix) => prefix@,
        None => Seq::empty(),
    }
}

/// The arguments of the replacement: the value of `x`, the value of
/// `pattern`, then the other arguments of `grepl()` as they stand.
pub open spec fn replacement_arguments(args: Seq<Argument>, pattern: int, x: int) -> Seq<
    Seq<char>,
> {
    seq![args[x].value->0.text@, args[pattern].value->0.text@] + other_texts(
        args,
        args[pattern].range,
        args[x].range,
    )
}

/// The replacement text: the namespace prefix of the outer call, then a
/// call of `expect_match` with the replacement's arguments.
pub open spec fn replacement(prefix: Seq<char>, args: Seq<Argument>, pattern: int, x: int) -> Seq<
    char,
> {
    prefix + "expect_match("@ + joined(replacement_arguments(args, pattern, x), ", "@) + ")"@
}

/// The fix for a call of `expect_true()` on the call `inner` of `grepl()`:
/// none where `expect_true()` has more than one argument, else the
/// replacement over the interval of `call`, to be skipped where a comment
/// stands in it.
pub open spec fn expect_match_fix(call: &Call, inner: &Call, pattern: int, x: int) -> FixView {
    if call.arguments->Ok_0@.len() > 1 {
        FixView::empty()
    } else {
        FixView {
            content: replacement(
                prefix_text(&call.function->Ok_0),
                inner.arguments->Ok_0@,
                pattern,
                x,
            ),
            start: call.range.start as nat,
            end: call.range.end as nat,
            to_skip: call.has_comments,
        }
    }
}

/// What the rule reports of `call`.
pub open spec fn expect_match_view(call: &Call) -> Result<Option<DiagnosticView>, TreeFault> {
    match tested_call(call) {
        Err(fault) => Err(fault),
        Ok(None) => Ok(None),
        Ok(Some(inner)) => match grepl_operands(&inner) {
            Err(fault) => Err(fault),
            Ok(None) => Ok(None),
            Ok(Some((pattern, x))) => Ok(
                Some(
                    DiagnosticView {
                        message: violation_view(&ExpectMatch),
                        range: call.range,
                        fix: expect_match_fix(call, &inner, pattern, x),
                    },
                ),
            ),
        },
    }
}

/// The mathematical value of a rule's result.
pub open spec fn report_view(out: Result<Option<Diagnostic>, TreeFault>) -> Result<
    Option<DiagnosticView>,
    TreeFault,
> {
    match out {
        Err(fault) => Err(fault),
        Ok(None) => Ok(None),
        Ok(Some(diagnostic)) => Ok(Some(diagnostic@)),
    }
}

/// The arguments of the replacement for a call of `grepl()` whose `pattern`
/// and `x` are `pattern` and `x`.
fn replacement_parts(args: &Vec<Argument>, pattern: &Argument, x: &Argument) -> (parts: Vec<
    String,
>)
    requires
        pattern.value is Some,
        x.value is Some,
    ensures
        texts(parts@) == seq![x.value->0.text@, pattern.value->0.text@] + other_texts(
            args@,
            pattern.range,
            x.range,
        ),
{
    let mut parts: Vec<String> = Vec::new();
    match (&x.value, &pattern.value) {
        (Some(x_value), Some(pattern_value)) => {
            parts.push(x_value.text.clone());
            parts.push(pattern_value.text.clone());
        },
        _ => {},
    }
    let ghost head = seq![x.value->0.text@, pattern.value->0.text@];
    let mut i: usize = 0;
    assert(args@.take(0) =~= Seq::<Argument>::empty());
    assert(texts(parts@) =~= head + other_texts(args@.take(0), pattern.range, x.range));
    while i < args.len()
        invariant
            i <= args.len(),
            texts(parts@) == head + other_texts(args@.take(i as int), pattern.range, x.range),
        decreases args.len() - i,
    {
        let arg = &args[i];
        assert(args@.take(i + 1).drop_last() =~= args@.take(i as int));
        assert(args@.take(i + 1).last() == *arg);
        if !(arg.range == pattern.range || arg.range == x.range) {
            let ghost before = texts(parts@);
            parts.push(arg.text.clone());
            assert(texts(parts@) =~= before.push(arg.text@));
            assert(before.push(arg.text@) =~= head + other_texts(
                args@.take(i as int),
                pattern.range,
                x.range,
            ).push(arg.text@));
        }
        i += 1;
    }
    assert(args@.take(args.len() as int) =~= args@);
    parts
}

/// Reports a call of `expect_true()` on a call of `grepl()`.
///
/// Returns no diagnostic where `call` does not have that shape or where
/// `pattern` or `x` is not given. Returns the fault where the function or
/// the argument list of `call`, or of the call of `grepl()`, cannot be
/// read. The diagnostic's interval is that of `call`. Its fix is empty
/// where `expect_true()` has further arguments; else it replaces the call by
/// `expect_match(x, pattern, ...)` behind the namespace prefix of `call`,
/// and is marked to be skipped where a comment stands inside the call.
pub fn expect_match(call: &Call) -> (out: Result<Option<Diagnostic>, TreeFault>)
    ensures
        report_view(out) == expect_match_view(call),
{
    let callee = match &call.function {
        Ok(callee) => callee,
        Err(fault) => {
            return Err(*fault);
        },
    };
    if !reads_as(&callee.name, "expect_true") {
        return Ok(None);
    }
    let args = match &call.arguments {
        Ok(args) => args,
        Err(fault) => {
            return Err(*fault);
        },
    };
    let object = match get_arg_by_name_then_position(args, "object", 1) {
        Some(object) => object,
        None => {
            return Ok(None);
        },
    };
    let object_value = match &object.value {
        Some(value) => value,
        None => {
            return Ok(None);
        },
    };
    let inner: &Call = match &object_value.call {
        Some(inner) => inner,
        None => {
            return Ok(None);
        },
    };
    assert(tested_call(call) == Ok::<Option<Call>, TreeFault>(Some(*inner)));
    let inner_callee = match &inner.function {
        Ok(callee) => callee,
        Err(fault) => {
            return Err(*fault);
        },
    };
    if !reads_as(&inner_callee.name, "grepl") {
        return Ok(None);
    }
    let inner_args = match &inner.arguments {
        Ok(args) => args,
        Err(fault) => {
            return Err(*fault);
        },
    };
    let pattern = match get_arg_by_name_then_position(inner_args, "pattern", 1) {
        Some(pattern) => pattern,
        None => {
            return Ok(None);
        },
    };
    let x = match get_arg_by_name_then_position(inner_args, "x", 2) {
        Some(x) => x,
        None => {
            return Ok(None);
        },
    };
    if pattern.value.is_none() || x.value.is_none() {
        return Ok(None);
    }
    if args.len() > 1 {
        return Ok(Some(Diagnostic::new(ExpectMatch, call.range, Fix::empty())));
    }
    let parts = replacement_parts(inner_args, pattern, x);
    let mut content = match &callee.namespace_prefix {
        Some(prefix) => prefix.clone(),
        None => String::new(),
    };
    content.append("expect_match(");
    content.append(join(&parts, ", ").as_str());
    content.append(")");
    let fix = Fix {
        content,
        start: call.range.start,
        end: call.range.end,
        to_skip: call.has_comments,
    };
    Ok(Some(Diagnostic::new(ExpectMatch, call.range, fix)))
}

/// A call of any function but `expect_true` is not reported.
pub proof fn other_calls_are_not_reported(call: &Call)
    requires
        call.function is Ok,
        call.function->Ok_0.name@ != "expect_true"@,
    ensures
        expect_match_view(call) == Ok::<Option<DiagnosticView>, TreeFault>(None),
{
}

/// The rule does not fire on what its own fix writes: a call of
/// `expect_match` is not reported, whatever its arguments are.
pub proof fn replacement_is_not_reported(call: &Call)
    requires
        call.function is Ok,
        call.function->Ok_0.name@ == "expect_match"@,
    ensures
        expect_match_view(call) == Ok::<Option<DiagnosticView>, TreeFault>(None),
{
    reveal_strlit("expect_match");
    reveal_strlit("expect_true");
    assert("expect_match"@.len() != "expect_true"@.len());
}

/// Every diagnostic of the rule lies on the interval of the call, and its
/// fix is either empty or replaces exactly that interval.
pub proof fn diagnostic_covers_the_call(call: &Call)
    requires
        expect_match_view(call) is Ok,
        expect_match_view(call)->Ok_0 is Some,
    ensures
        expect_match_view(call)->Ok_0->0.range == call.range,
        expect_match_view(call)->Ok_0->0.fix == FixView::empty() || ({
            &&& expect_match_view(call)->Ok_0->0.fix.start == call.range.start
            &&& expect_match_view(call)->Ok_0->0.fix.end == call.range.end
            &&& expect_match_view(call)->Ok_0->0.fix.content.len() > 0
        }),
{
    let fix = expect_match_view(call)->Ok_0->0.fix;
    if fix != FixView::empty() {
        reveal_strlit("expect_match(");
        assert("expect_match("@.len() == 13);
    }
}

/// The fix for a call with a comment inside is never realised: given alone
/// to the applier, it leaves every text as it is.
pub proof fn commented_call_is_left_alone(call: &Call, source: Seq<char>)
    requires
        call.has_comments,
        expect_match_view(call) is Ok,
        expect_match_view(call)->Ok_0 is Some,
    ensures
        !expect_match_view(call)->Ok_0->0.fix.applicable(source.len()),
        applied_fixes(seq![expect_match_view(call)->Ok_0->0.fix], source.len()) == Seq::<
            FixView,
        >::empty(),
        rewritten(
            source,
            applied_fixes(seq![expect_match_view(call)->Ok_0->0.fix], source.len()),
        ) == source,
{
    let fix = expect_match_view(call)->Ok_0->0.fix;
    assert(fix.to_skip || fix.content.len() == 0);
    unapplicable_fixes_change_nothing(seq![fix], source);
}

/// A fix that the applier realises never comes from a call with a comment
/// inside: among any fixes, the one for such a call is not applied.
pub proof fn commented_call_is_never_applied(
    call: &Call,
    fixes: Seq<FixView>,
    len: nat,
    at: int,
)
    requires
        call.has_comments,
        expect_match_view(call) is Ok,
        expect_match_view(call)->Ok_0 is Some,
        0 <= at < applied_fixes(fixes, len).len(),
    ensures
        applied_fixes(fixes, len)[at] != expect_match_view(call)->Ok_0->0.fix,
{
    applied_fixes_are_applicable(fixes, len);
    assert(applied_fixes(fixes, len)[at].applicable(len));
}

} // verus!
