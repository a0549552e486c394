//! Merging the fixes of one source text into one rewritten text.
//!
//! Fixes that are marked to be skipped, that have no content, or whose
//! interval does not lie inside the text are left out. The others are taken
//! in the order of their start offsets, fixes with the same start in the
//! order in which they were given. A fix is applied if it starts at or
//! behind the end of the fix applied before it; otherwise it is a conflict
//! and is left out. The rewritten text copies the source between the
//! applied fixes and puts each fix's content in place of its interval.

use vstd::prelude::*;
use crate::diagnostic::{fix_views, Fix, FixView};

verus! {

/// The fixes of `fixes` that may be realised in a text of `len` offsets, in
/// the order in which they are given.
pub open spec fn candidates(fixes: Seq<FixView>, len: nat) -> Seq<FixView>
    decreases fixes.len(),
{
    if fixes.len() == 0 {
        Seq::empty()
    } else {
        let before = candidates(fixes.drop_last(), len);
        if fixes.last().applicable(len) {
            before.push(fixes.last())
        } else {
            before
        }
    }
}

/// No fix starts before a fix that precedes it.
pub open spec fn ordered(fixes: Seq<FixView>) -> bool {
    forall|i: int, j: int| 0 <= i <= j < fixes.len() ==> fixes[i].start <= fixes[j].start
}

/// `sorted` with `fix` put directly behind the last of its fixes that does
/// not start after `fix`.
pub open spec fn insert_by_start(sorted: Seq<FixView>, fix: FixView) -> Seq<FixView>
    decreases sorted.len(),
{
    if sorted.len() == 0 || sorted.last().start <= fix.start {
        sorted.push(fix)
    } else {
        insert_by_start(sorted.drop_last(), fix).push(sorted.last())
    }
}

/// The fixes in the order of their start offsets; fixes with the same start
/// keep the order in which they are given.
pub open spec fn sort_by_start(fixes: Seq<FixView>) -> Seq<FixView>
    decreases fixes.len(),
{
    if fixes.len() == 0 {
        Seq::empty()
    } else {
        insert_by_start(sort_by_start(fixes.drop_last()), fixes.last())
    }
}

/// The offset at which the last of `applied` ends, 0 where there is none.
pub open spec fn end_of(applied: Seq<FixView>) -> nat {
    if applied.len() == 0 {
        0
    } else {
        applied.last().end
    }
}

/// The fixes of `sorted` that are applied when they are taken in order:
/// each one that starts at or behind the end of the one applied before it.
pub open spec fn accepted(sorted: Seq<FixView>) -> Seq<FixView>
    decreases sorted.len(),
{
    if sorted.len() == 0 {
        Seq::empty()
    } else {
        let before = accepted(sorted.drop_last());
        if sorted.last().start >= end_of(before) {
            before.push(sorted.last())
        } else {
            before
        }
    }
}

/// The fixes of `sorted` that are left out because they start before the
/// end of the fix applied before them.
pub open spec fn conflicting(sorted: Seq<FixView>) -> Seq<FixView>
    decreases sorted.len(),
{
    if sorted.len() == 0 {
        Seq::empty()
    } else {
        let before = conflicting(sorted.drop_last());
        if sorted.last().start >= end_of(accepted(sorted.drop_last())) {
            before
        } else {
            before.push(sorted.last())
        }
    }
}

/// The fixes of `fixes` that are applied to a text of `len` offsets, in the
/// order of their intervals.
pub open spec fn applied_fixes(fixes: Seq<FixView>, len: nat) -> Seq<FixView> {
    accepted(sort_by_start(candidates(fixes, len)))
}

/// The fixes of `fixes` that are left out of a text of `len` offsets because
/// they overlap a fix that is applied, in the order of their start offsets.
pub open spec fn conflicting_fixes(fixes: Seq<FixView>, len: nat) -> Seq<FixView> {
    conflicting(sort_by_start(candidates(fixes, len)))
}

/// Each fix ends where, or before, every later one starts.
pub open spec fn chained(applied: Seq<FixView>) -> bool {
    forall|i: int, j: int| 0 <= i < j < applied.len() ==> applied[i].end <= applied[j].start
}

/// The rewritten text up to the end of the last of `applied`: for each fix
/// the source between the fix before it and the fix, then its content.
pub open spec fn rewritten_up_to(source: Seq<char>, applied: Seq<FixView>) -> Seq<char>
    decreases applied.len(),
{
    if applied.len() == 0 {
        Seq::empty()
    } else {
        let before = applied.drop_last();
        rewritten_up_to(source, before) + source.subrange(
            end_of(before) as int,
            applied.last().start as int,
        ) + applied.last().content
    }
}

/// The source with the content of each of `applied` in place of its
/// interval.
pub open spec fn rewritten(source: Seq<char>, applied: Seq<FixView>) -> Seq<char> {
    rewritten_up_to(source, applied) + source.subrange(
        end_of(applied) as int,
        source.len() as int,
    )
}

/// The outcome of merging fixes into a text.
#[derive(Debug)]
pub struct Rewrite {
    /// The rewritten text.
    pub text: String,
    /// The fixes that were applied, in the order of their intervals.
    pub applied: Vec<Fix>,
    /// The fixes that were left out because they overlap an applied fix.
    pub conflicts: Vec<Fix>,
}

spec fn picked(views: Seq<FixView>, order: Seq<usize>) -> Seq<FixView> {
    Seq::new(order.len(), |k: int| views[order[k] as int])
}

proof fn insert_by_start_at(sorted: Seq<FixView>, fix: FixView, at: int)
    requires
        0 <= at <= sorted.len(),
        forall|k: int| at <= k < sorted.len() ==> sorted[k].start > fix.start,
        at == 0 || sorted[at - 1].start <= fix.start,
    ensures
        insert_by_start(sorted, fix) == sorted.insert(at, fix),
    decreases sorted.len(),
{
    if sorted.len() == 0 || sorted.last().start <= fix.start {
        assert(at == sorted.len());
        assert(sorted.push(fix) =~= sorted.insert(at, fix));
    } else {
        assert(at < sorted.len());
        insert_by_start_at(sorted.drop_last(), fix, at);
        assert(sorted.drop_last().insert(at, fix).push(sorted.last()) =~= sorted.insert(at, fix));
    }
}

/// The indices of the fixes that may be realised, in the order in which the
/// fixes are to be taken.
fn candidate_order(fixes: &Vec<Fix>, len: usize) -> (order: Vec<usize>)
    ensures
        forall|k: int| 0 <= k < order.len() ==> order[k] < fixes.len(),
        picked(fix_views(fixes@), order@) == sort_by_start(
            candidates(fix_views(fixes@), len as nat),
        ),
        forall|k: int|
            0 <= k < order.len() ==> (#[trigger] fixes[order[k] as int])@.applicable(len as nat),
{
    let ghost views = fix_views(fixes@);
    let mut order: Vec<usize> = Vec::new();
    let mut i: usize = 0;
    assert(views.take(0) =~= Seq::<FixView>::empty());
    assert(picked(views, order@) =~= Seq::<FixView>::empty());
    while i < fixes.len()
        invariant
            i <= fixes.len(),
            views == fix_views(fixes@),
            forall|k: int| 0 <= k < order.len() ==> order[k] < i,
            picked(views, order@) == sort_by_start(candidates(views.take(i as int), len as nat)),
            forall|k: int|
                0 <= k < order.len() ==> (#[trigger] fixes[order[k] as int])@.applicable(
                    len as nat,
                ),
        decreases fixes.len() - i,
    {
        let fix = &fixes[i];
        assert(views.take(i + 1).drop_last() =~= views.take(i as int));
        assert(views.take(i + 1).last() == fix@);
        if !fix.to_skip && !fix.content.as_str().is_empty() && fix.start <= fix.end && fix.end
            <= len {
            let mut at: usize = order.len();
            while at > 0 && fixes[order[at - 1]].start > fix.start
                invariant
                    at <= order.len(),
                    i < fixes.len(),
                    fix == &fixes[i as int],
                    forall|k: int| 0 <= k < order.len() ==> order[k] < i,
                    forall|k: int|
                        at <= k < order.len() ==> fixes[order[k] as int].start > fix.start,
                decreases at,
            {
                at -= 1;
            }
            proof {
                let sorted = picked(views, order@);
                let earlier = candidates(views.take(i as int), len as nat);
                assert(fix@.applicable(len as nat));
                assert(candidates(views.take(i + 1), len as nat) == earlier.push(fix@));
                assert(earlier.push(fix@).drop_last() =~= earlier);
                assert(sort_by_start(earlier.push(fix@)) == insert_by_start(sorted, fix@));
                assert forall|k: int| at <= k < sorted.len() implies sorted[k].start
                    > fix@.start by {
                    assert(fixes[order[k] as int].start > fix.start);
                }
                insert_by_start_at(sorted, fix@, at as int);
                assert(picked(views, order@.insert(at as int, i)) =~= sorted.insert(
                    at as int,
                    fix@,
                ));
            }
            order.insert(at, i);
        } else {
            assert(!fix@.applicable(len as nat));
            assert(candidates(views.take(i + 1), len as nat) == candidates(
                views.take(i as int),
                len as nat,
            ));
        }
        i += 1;
    }
    assert(views.take(fixes.len() as int) =~= views);
    order
}

/// Merges `fixes` into `source`.
///
/// Returns the rewritten text, the fixes that were applied and the fixes
/// that were left out because they overlap an applied one.
pub fn apply_fixes(fixes: &Vec<Fix>, source: &str) -> (out: Rewrite)
    ensures
        fix_views(out.applied@) == applied_fixes(fix_views(fixes@), source@.len()),
        fix_views(out.conflicts@) == conflicting_fixes(fix_views(fixes@), source@.len()),
        out.text@ == rewritten(source@, fix_views(out.applied@)),
        chained(fix_views(out.applied@)),
        forall|k: int|
            0 <= k < out.applied.len() ==> (#[trigger] out.applied[k])@.applicable(source@.len()),
{
    let len = source.unicode_len();
    let order = candidate_order(fixes, len);
    let ghost sorted = picked(fix_views(fixes@), order@);
    let mut text = String::new();
    let mut applied: Vec<Fix> = Vec::new();
    let mut conflicts: Vec<Fix> = Vec::new();
    let mut last_end: usize = 0;
    let mut k: usize = 0;
    assert(sorted.take(0) =~= Seq::<FixView>::empty());
    assert(fix_views(applied@) =~= Seq::<FixView>::empty());
    assert(fix_views(conflicts@) =~= Seq::<FixView>::empty());
    while k < order.len()
        invariant
            k <= order.len(),
            len as nat == source@.len(),
            sorted == picked(fix_views(fixes@), order@),
            forall|n: int| 0 <= n < order.len() ==> order[n] < fixes.len(),
            forall|n: int|
                0 <= n < order.len() ==> (#[trigger] fixes[order[n] as int])@.applicable(
                    len as nat,
                ),
            fix_views(applied@) == accepted(sorted.take(k as int)),
            fix_views(conflicts@) == conflicting(sorted.take(k as int)),
            last_end as nat == end_of(fix_views(applied@)),
            last_end <= len,
            text@ == rewritten_up_to(source@, fix_views(applied@)),
        decreases order.len() - k,
    {
        let fix = &fixes[order[k]];
        assert(sorted.take(k + 1).drop_last() =~= sorted.take(k as int));
        assert(sorted.take(k + 1).last() == fix@);
        assert(fix@.applicable(len as nat));
        if fix.start >= last_end {
            let ghost before = fix_views(applied@);
            text.append(source.substring_char(last_end, fix.start));
            text.append(fix.content.as_str());
            last_end = fix.end;
            applied.push(fix.duplicate());
            assert(fix_views(applied@) =~= before.push(fix@));
            assert(fix_views(applied@).drop_last() =~= before);
        } else {
            let ghost before = fix_views(conflicts@);
            conflicts.push(fix.duplicate());
            assert(fix_views(conflicts@) =~= before.push(fix@));
        }
        k += 1;
    }
    assert(sorted.take(order.len() as int) =~= sorted);
    text.append(source.substring_char(last_end, len));
    proof {
        applied_fixes_do_not_overlap(fix_views(fixes@), len as nat);
        applied_fixes_are_applicable(fix_views(fixes@), len as nat);
        assert forall|n: int| 0 <= n < applied.len() implies (#[trigger] applied[n])@.applicable(
            len as nat,
        ) by {
            assert(fix_views(applied@)[n] == applied[n]@);
        }
    }
    Rewrite { text, applied, conflicts }
}

/// The fixes of `fixes` that start at `start`, in the order in which they
/// are given.
pub open spec fn starting_at(fixes: Seq<FixView>, start: nat) -> Seq<FixView>
    decreases fixes.len(),
{
    if fixes.len() == 0 {
        Seq::empty()
    } else {
        let before = starting_at(fixes.drop_last(), start);
        if fixes.last().start == start {
            before.push(fixes.last())
        } else {
            before
        }
    }
}

proof fn insert_by_start_bounded(sorted: Seq<FixView>, fix: FixView, bound: nat)
    requires
        forall|k: int| 0 <= k < sorted.len() ==> sorted[k].start <= bound,
        fix.start <= bound,
    ensures
        insert_by_start(sorted, fix).len() == sorted.len() + 1,
        forall|k: int|
            0 <= k < insert_by_start(sorted, fix).len() ==> insert_by_start(sorted, fix)[k].start
                <= bound,
    decreases sorted.len(),
{
    if sorted.len() == 0 || sorted.last().start <= fix.start {
    } else {
        insert_by_start_bounded(sorted.drop_last(), fix, bound);
    }
}

proof fn insert_by_start_keeps_order(sorted: Seq<FixView>, fix: FixView)
    requires
        ordered(sorted),
    ensures
        ordered(insert_by_start(sorted, fix)),
    decreases sorted.len(),
{
    if sorted.len() == 0 || sorted.last().start <= fix.start {
        if sorted.len() > 0 {
            assert forall|i: int| 0 <= i < sorted.len() implies sorted[i].start
                <= fix.start by {
                assert(sorted[i].start <= sorted[sorted.len() - 1].start);
            }
        }
    } else {
        let front = sorted.drop_last();
        insert_by_start_keeps_order(front, fix);
        assert forall|k: int| 0 <= k < front.len() implies front[k].start
            <= sorted.last().start by {
            assert(sorted[k].start <= sorted[sorted.len() - 1].start);
        }
        insert_by_start_bounded(front, fix, sorted.last().start);
    }
}

proof fn insert_by_start_adds_one(sorted: Seq<FixView>, fix: FixView)
    ensures
        insert_by_start(sorted, fix).to_multiset() == sorted.to_multiset().insert(fix),
    decreases sorted.len(),
{
    broadcast use vstd::seq_lib::group_to_multiset_ensures;

    if sorted.len() == 0 || sorted.last().start <= fix.start {
    } else {
        let front = sorted.drop_last();
        insert_by_start_adds_one(front, fix);
        assert(front.push(sorted.last()) =~= sorted);
        assert(front.to_multiset().insert(fix).insert(sorted.last()) =~= front.to_multiset().insert(
            sorted.last(),
        ).insert(fix));
    }
}

proof fn insert_by_start_keeps_ties(sorted: Seq<FixView>, fix: FixView, start: nat)
    ensures
        starting_at(insert_by_start(sorted, fix), start) == if fix.start == start {
            starting_at(sorted, start).push(fix)
        } else {
            starting_at(sorted, start)
        },
    decreases sorted.len(),
{
    if sorted.len() == 0 || sorted.last().start <= fix.start {
        assert(sorted.push(fix).drop_last() =~= sorted);
    } else {
        let front = sorted.drop_last();
        insert_by_start_keeps_ties(front, fix, start);
        assert(insert_by_start(front, fix).push(sorted.last()).drop_last() =~= insert_by_start(
            front,
            fix,
        ));
    }
}

/// Sorting puts the fixes in the order of their start offsets.
pub proof fn sort_by_start_is_ordered(fixes: Seq<FixView>)
    ensures
        ordered(sort_by_start(fixes)),
    decreases fixes.len(),
{
    if fixes.len() > 0 {
        sort_by_start_is_ordered(fixes.drop_last());
        insert_by_start_keeps_order(sort_by_start(fixes.drop_last()), fixes.last());
    }
}

/// Sorting neither drops nor adds nor repeats a fix.
pub proof fn sort_by_start_permutes(fixes: Seq<FixView>)
    ensures
        sort_by_start(fixes).to_multiset() == fixes.to_multiset(),
        sort_by_start(fixes).len() == fixes.len(),
    decreases fixes.len(),
{
    broadcast use vstd::seq_lib::group_to_multiset_ensures;

    if fixes.len() > 0 {
        let front = fixes.drop_last();
        sort_by_start_permutes(front);
        insert_by_start_adds_one(sort_by_start(front), fixes.last());
        assert(front.push(fixes.last()) =~= fixes);
    }
    assert(sort_by_start(fixes).to_multiset().len() == sort_by_start(fixes).len());
    assert(fixes.to_multiset().len() == fixes.len());
}

/// Sorting keeps fixes that start at the same offset in the order in which
/// they are given.
pub proof fn sort_by_start_is_stable(fixes: Seq<FixView>, start: nat)
    ensures
        starting_at(sort_by_start(fixes), start) == starting_at(fixes, start),
    decreases fixes.len(),
{
    if fixes.len() > 0 {
        sort_by_start_is_stable(fixes.drop_last(), start);
        insert_by_start_keeps_ties(sort_by_start(fixes.drop_last()), fixes.last(), start);
    }
}

proof fn candidates_are_applicable(fixes: Seq<FixView>, len: nat)
    ensures
        forall|k: int|
            0 <= k < candidates(fixes, len).len() ==> (#[trigger] candidates(
                fixes,
                len,
            )[k]).applicable(len),
    decreases fixes.len(),
{
    if fixes.len() > 0 {
        let before = candidates(fixes.drop_last(), len);
        candidates_are_applicable(fixes.drop_last(), len);
        assert forall|k: int| 0 <= k < candidates(fixes, len).len() implies (#[trigger] candidates(
            fixes,
            len,
        )[k]).applicable(len) by {
            if k < before.len() {
                assert(before[k].applicable(len));
            }
        }
    }
}

proof fn insert_by_start_keeps(
    sorted: Seq<FixView>,
    fix: FixView,
    holds: spec_fn(FixView) -> bool,
)
    requires
        forall|k: int| 0 <= k < sorted.len() ==> #[trigger] holds(sorted[k]),
        holds(fix),
    ensures
        forall|k: int|
            0 <= k < insert_by_start(sorted, fix).len() ==> #[trigger] holds(
                insert_by_start(sorted, fix)[k],
            ),
    decreases sorted.len(),
{
    let after = insert_by_start(sorted, fix);
    if sorted.len() == 0 || sorted.last().start <= fix.start {
        assert forall|k: int| 0 <= k < after.len() implies #[trigger] holds(after[k]) by {
            if k < sorted.len() {
                assert(holds(sorted[k]));
            }
        }
    } else {
        let front = insert_by_start(sorted.drop_last(), fix);
        assert forall|k: int| 0 <= k < sorted.drop_last().len() implies #[trigger] holds(
            sorted.drop_last()[k],
        ) by {
            assert(holds(sorted[k]));
        }
        insert_by_start_keeps(sorted.drop_last(), fix, holds);
        assert(holds(sorted[sorted.len() - 1]));
        assert forall|k: int| 0 <= k < after.len() implies #[trigger] holds(after[k]) by {
            if k < front.len() {
                assert(holds(front[k]));
            }
        }
    }
}

proof fn sort_by_start_keeps(fixes: Seq<FixView>, holds: spec_fn(FixView) -> bool)
    requires
        forall|k: int| 0 <= k < fixes.len() ==> #[trigger] holds(fixes[k]),
    ensures
        forall|k: int|
            0 <= k < sort_by_start(fixes).len() ==> #[trigger] holds(sort_by_start(fixes)[k]),
    decreases fixes.len(),
{
    if fixes.len() > 0 {
        assert forall|k: int| 0 <= k < fixes.drop_last().len() implies #[trigger] holds(
            fixes.drop_last()[k],
        ) by {
            assert(holds(fixes[k]));
        }
        sort_by_start_keeps(fixes.drop_last(), holds);
        assert(holds(fixes[fixes.len() - 1]));
        insert_by_start_keeps(sort_by_start(fixes.drop_last()), fixes.last(), holds);
    }
}

proof fn sorted_candidates_are_applicable(fixes: Seq<FixView>, len: nat)
    ensures
        forall|k: int|
            0 <= k < sort_by_start(candidates(fixes, len)).len() ==> (#[trigger] sort_by_start(
                candidates(fixes, len),
            )[k]).applicable(len),
{
    let holds = |f: FixView| f.applicable(len);
    candidates_are_applicable(fixes, len);
    assert forall|k: int| 0 <= k < candidates(fixes, len).len() implies #[trigger] holds(
        candidates(fixes, len)[k],
    ) by {
        assert(candidates(fixes, len)[k].applicable(len));
    }
    sort_by_start_keeps(candidates(fixes, len), holds);
    assert forall|k: int|
        0 <= k < sort_by_start(candidates(fixes, len)).len() implies (#[trigger] sort_by_start(
        candidates(fixes, len),
    )[k]).applicable(len) by {
        assert(holds(sort_by_start(candidates(fixes, len))[k]));
    }
}

proof fn accepted_are_chained(sorted: Seq<FixView>, len: nat)
    requires
        forall|k: int| 0 <= k < sorted.len() ==> (#[trigger] sorted[k]).applicable(len),
    ensures
        chained(accepted(sorted)),
        end_of(accepted(sorted)) <= len,
        forall|k: int|
            0 <= k < accepted(sorted).len() ==> {
                &&& (#[trigger] accepted(sorted)[k]).applicable(len)
                &&& accepted(sorted)[k].end <= end_of(accepted(sorted))
            },
    decreases sorted.len(),
{
    if sorted.len() > 0 {
        accepted_are_chained(sorted.drop_last(), len);
        assert(sorted.last().applicable(len));
    }
}

/// No two applied fixes overlap: each one ends where, or before, every
/// later one starts.
pub proof fn applied_fixes_do_not_overlap(fixes: Seq<FixView>, len: nat)
    ensures
        chained(applied_fixes(fixes, len)),
        forall|i: int, j: int|
            #![trigger applied_fixes(fixes, len)[i], applied_fixes(fixes, len)[j]]
            0 <= i < applied_fixes(fixes, len).len() && 0 <= j < applied_fixes(fixes, len).len()
                && i != j ==> applied_fixes(fixes, len)[i].end <= applied_fixes(
                fixes,
                len,
            )[j].start || applied_fixes(fixes, len)[j].end <= applied_fixes(fixes, len)[i].start,
{
    sorted_candidates_are_applicable(fixes, len);
    accepted_are_chained(sort_by_start(candidates(fixes, len)), len);
    let applied = applied_fixes(fixes, len);
    assert forall|i: int, j: int|
        0 <= i < applied.len() && 0 <= j < applied.len() && i != j implies applied[i].end
        <= applied[j].start || applied[j].end <= applied[i].start by {
        if i < j {
            assert(applied[i].end <= applied[j].start);
        } else {
            assert(applied[j].end <= applied[i].start);
        }
    }
}

/// Every applied fix has content, is not marked to be skipped, and replaces
/// an interval inside the text.
pub proof fn applied_fixes_are_applicable(fixes: Seq<FixView>, len: nat)
    ensures
        forall|k: int|
            0 <= k < applied_fixes(fixes, len).len() ==> (#[trigger] applied_fixes(
                fixes,
                len,
            )[k]).applicable(len),
{
    sorted_candidates_are_applicable(fixes, len);
    accepted_are_chained(sort_by_start(candidates(fixes, len)), len);
}

proof fn candidates_of_none(fixes: Seq<FixView>, len: nat)
    requires
        forall|k: int| 0 <= k < fixes.len() ==> !(#[trigger] fixes[k]).applicable(len),
    ensures
        candidates(fixes, len) == Seq::<FixView>::empty(),
    decreases fixes.len(),
{
    if fixes.len() > 0 {
        candidates_of_none(fixes.drop_last(), len);
    }
}

/// Where every fix is marked to be skipped, has no content or lies outside
/// the text, nothing is applied and the text stays as it is.
pub proof fn unapplicable_fixes_change_nothing(fixes: Seq<FixView>, source: Seq<char>)
    requires
        forall|k: int| 0 <= k < fixes.len() ==> !(#[trigger] fixes[k]).applicable(source.len()),
    ensures
        applied_fixes(fixes, source.len()) == Seq::<FixView>::empty(),
        conflicting_fixes(fixes, source.len()) == Seq::<FixView>::empty(),
        rewritten(source, applied_fixes(fixes, source.len())) == source,
{
    candidates_of_none(fixes, source.len());
    assert(rewritten(source, Seq::<FixView>::empty()) =~= source);
}

/// A fix that may be realised, given alone, is applied: the text becomes the
/// source before the fix, the fix's content, and the source behind the fix.
pub proof fn lone_fix_is_applied(fix: FixView, source: Seq<char>)
    requires
        fix.applicable(source.len()),
    ensures
        applied_fixes(seq![fix], source.len()) == seq![fix],
        rewritten(source, seq![fix]) == source.subrange(0, fix.start as int) + fix.content
            + source.subrange(fix.end as int, source.len() as int),
{
    let one = seq![fix];
    assert(one.drop_last() =~= Seq::<FixView>::empty());
    assert(candidates(one.drop_last(), source.len()) =~= Seq::<FixView>::empty());
    assert(candidates(one, source.len()) =~= one);
    assert(sort_by_start(one.drop_last()) =~= Seq::<FixView>::empty());
    assert(sort_by_start(one) =~= one);
    assert(accepted(one.drop_last()) =~= Seq::<FixView>::empty());
    assert(accepted(one) =~= one);
    assert(rewritten_up_to(source, one.drop_last()) =~= Seq::<char>::empty());
    assert(rewritten(source, one) =~= source.subrange(0, fix.start as int) + fix.content
        + source.subrange(fix.end as int, source.len() as int));
}

/// No two of the fixes overlap, whatever their order.
pub open spec fn pairwise_apart(fixes: Seq<FixView>) -> bool {
    forall|p: int, q: int| 0 <= p < q < fixes.len() ==> fixes[p].apart(fixes[q])
}

proof fn candidates_of_all(fixes: Seq<FixView>, len: nat)
    requires
        forall|k: int| 0 <= k < fixes.len() ==> (#[trigger] fixes[k]).applicable(len),
    ensures
        candidates(fixes, len) == fixes,
    decreases fixes.len(),
{
    if fixes.len() > 0 {
        assert forall|k: int| 0 <= k < fixes.drop_last().len() implies (
        #[trigger] fixes.drop_last()[k]).applicable(len) by {
            assert(fixes[k].applicable(len));
        }
        candidates_of_all(fixes.drop_last(), len);
        assert(fixes[fixes.len() - 1].applicable(len));
        assert(fixes.drop_last().push(fixes.last()) =~= fixes);
    }
}

proof fn sort_of_ordered(fixes: Seq<FixView>)
    requires
        ordered(fixes),
    ensures
        sort_by_start(fixes) == fixes,
    decreases fixes.len(),
{
    if fixes.len() > 0 {
        let front = fixes.drop_last();
        assert forall|i: int, j: int| 0 <= i <= j < front.len() implies front[i].start
            <= front[j].start by {
            assert(fixes[i].start <= fixes[j].start);
        }
        sort_of_ordered(front);
        if front.len() > 0 {
            assert(fixes[front.len() - 1].start <= fixes[fixes.len() - 1].start);
        }
        assert(front.push(fixes.last()) =~= fixes);
    }
}

proof fn accepted_of_chained(fixes: Seq<FixView>)
    requires
        chained(fixes),
    ensures
        accepted(fixes) == fixes,
        conflicting(fixes) == Seq::<FixView>::empty(),
    decreases fixes.len(),
{
    if fixes.len() > 0 {
        let front = fixes.drop_last();
        assert forall|i: int, j: int| 0 <= i < j < front.len() implies front[i].end
            <= front[j].start by {
            assert(fixes[i].end <= fixes[j].start);
        }
        accepted_of_chained(front);
        if front.len() > 0 {
            assert(fixes[front.len() - 1].end <= fixes[fixes.len() - 1].start);
        }
        assert(front.push(fixes.last()) =~= fixes);
    }
}

/// What was applied does not conflict with itself: given the applied fixes
/// alone, the applier applies them all again and leaves none out.
pub proof fn applied_fixes_are_stable(fixes: Seq<FixView>, len: nat)
    ensures
        applied_fixes(applied_fixes(fixes, len), len) == applied_fixes(fixes, len),
        conflicting_fixes(applied_fixes(fixes, len), len) == Seq::<FixView>::empty(),
{
    let applied = applied_fixes(fixes, len);
    applied_fixes_are_applicable(fixes, len);
    applied_fixes_do_not_overlap(fixes, len);
    candidates_of_all(applied, len);
    assert forall|i: int, j: int| 0 <= i <= j < applied.len() implies applied[i].start
        <= applied[j].start by {
        assert(applied[i].applicable(len));
        if i < j {
            assert(applied[i].end <= applied[j].start);
        }
    }
    sort_of_ordered(applied);
    accepted_of_chained(applied);
}

proof fn insert_by_start_keeps_apart(sorted: Seq<FixView>, fix: FixView)
    requires
        pairwise_apart(sorted),
        forall|k: int| 0 <= k < sorted.len() ==> (#[trigger] sorted[k]).apart(fix),
    ensures
        pairwise_apart(insert_by_start(sorted, fix)),
    decreases sorted.len(),
{
    let after = insert_by_start(sorted, fix);
    if sorted.len() == 0 || sorted.last().start <= fix.start {
        assert forall|p: int, q: int| 0 <= p < q < after.len() implies after[p].apart(
            after[q],
        ) by {
            if q < sorted.len() {
                assert(sorted[p].apart(sorted[q]));
            } else {
                assert(sorted[p].apart(fix));
            }
        }
    } else {
        let front = sorted.drop_last();
        let last = sorted.last();
        let holds = |f: FixView| f.apart(last);
        assert forall|p: int, q: int| 0 <= p < q < front.len() implies front[p].apart(
            front[q],
        ) by {
            assert(sorted[p].apart(sorted[q]));
        }
        assert forall|k: int| 0 <= k < front.len() implies (#[trigger] front[k]).apart(fix) by {
            assert(sorted[k].apart(fix));
        }
        insert_by_start_keeps_apart(front, fix);
        assert forall|k: int| 0 <= k < front.len() implies #[trigger] holds(front[k]) by {
            assert(sorted[k].apart(sorted[sorted.len() - 1]));
        }
        assert(holds(fix)) by {
            assert(sorted[sorted.len() - 1].apart(fix));
        }
        insert_by_start_keeps(front, fix, holds);
        let inner = insert_by_start(front, fix);
        assert forall|p: int, q: int| 0 <= p < q < after.len() implies after[p].apart(
            after[q],
        ) by {
            if q < inner.len() {
                assert(inner[p].apart(inner[q]));
            } else {
                assert(holds(inner[p]));
            }
        }
    }
}

proof fn sort_by_start_keeps_apart(fixes: Seq<FixView>)
    requires
        pairwise_apart(fixes),
    ensures
        pairwise_apart(sort_by_start(fixes)),
    decreases fixes.len(),
{
    if fixes.len() > 0 {
        let front = fixes.drop_last();
        let last = fixes.last();
        let holds = |f: FixView| f.apart(last);
        assert forall|p: int, q: int| 0 <= p < q < front.len() implies front[p].apart(
            front[q],
        ) by {
            assert(fixes[p].apart(fixes[q]));
        }
        sort_by_start_keeps_apart(front);
        assert forall|k: int| 0 <= k < front.len() implies #[trigger] holds(front[k]) by {
            assert(fixes[k].apart(fixes[fixes.len() - 1]));
        }
        sort_by_start_keeps(front, holds);
        assert forall|k: int| 0 <= k < sort_by_start(front).len() implies (
        #[trigger] sort_by_start(front)[k]).apart(last) by {
            assert(holds(sort_by_start(front)[k]));
        }
        insert_by_start_keeps_apart(sort_by_start(front), last);
    }
}

/// Fixes that may be realised, that replace at least one offset each and
/// of which no two overlap are all applied, in the order of their start
/// offsets, and none is left out.
pub proof fn fixes_apart_are_all_applied(fixes: Seq<FixView>, len: nat)
    requires
        forall|k: int|
            0 <= k < fixes.len() ==> (#[trigger] fixes[k]).applicable(len) && fixes[k].start
                < fixes[k].end,
        pairwise_apart(fixes),
    ensures
        applied_fixes(fixes, len) == sort_by_start(fixes),
        conflicting_fixes(fixes, len) == Seq::<FixView>::empty(),
{
    let sorted = sort_by_start(fixes);
    let holds = |f: FixView| f.start < f.end;
    candidates_of_all(fixes, len);
    sort_by_start_is_ordered(fixes);
    sort_by_start_keeps_apart(fixes);
    assert forall|k: int| 0 <= k < fixes.len() implies #[trigger] holds(fixes[k]) by {
        assert(fixes[k].applicable(len));
    }
    sort_by_start_keeps(fixes, holds);
    assert forall|i: int, j: int| 0 <= i < j < sorted.len() implies sorted[i].end
        <= sorted[j].start by {
        assert(sorted[i].apart(sorted[j]));
        assert(sorted[i].start <= sorted[j].start);
        assert(holds(sorted[j]));
    }
    accepted_of_chained(sorted);
}

proof fn rewritten_up_to_grows(source: Seq<char>, applied: Seq<FixView>, upto: int)
    requires
        0 <= upto <= applied.len(),
    ensures
        rewritten_up_to(source, applied.take(upto)).len() <= rewritten_up_to(source, applied).len(),
        rewritten_up_to(source, applied).subrange(
            0,
            rewritten_up_to(source, applied.take(upto)).len() as int,
        ) == rewritten_up_to(source, applied.take(upto)),
    decreases applied.len(),
{
    let whole = rewritten_up_to(source, applied);
    let part = rewritten_up_to(source, applied.take(upto));
    if upto == applied.len() {
        assert(applied.take(upto) =~= applied);
        assert(whole.subrange(0, whole.len() as int) =~= whole);
    } else {
        let front = applied.drop_last();
        rewritten_up_to_grows(source, front, upto);
        assert(front.take(upto) =~= applied.take(upto));
        assert(whole.subrange(0, part.len() as int) =~= rewritten_up_to(source, front).subrange(
            0,
            part.len() as int,
        ));
    }
}

/// The source that no applied fix replaces is kept as it is. The text from
/// `from` to `to`, which lies behind the first `count` applied fixes and
/// before the next one, stands in the rewritten text as far behind the
/// rewritten first `count` fixes as it stands behind them in the source.
pub proof fn text_between_fixes_is_kept(
    source: Seq<char>,
    applied: Seq<FixView>,
    count: int,
    from: int,
    to: int,
)
    requires
        forall|k: int| 0 <= k < applied.len() ==> (#[trigger] applied[k]).applicable(source.len()),
        0 <= count <= applied.len(),
        end_of(applied.take(count)) <= from <= to <= source.len(),
        count < applied.len() ==> to <= applied[count].start,
    ensures
        ({
            let shift = rewritten_up_to(source, applied.take(count)).len() - end_of(
                applied.take(count),
            );
            rewritten(source, applied).subrange(from + shift, to + shift) == source.subrange(
                from,
                to,
            )
        }),
{
    let before = rewritten_up_to(source, applied.take(count));
    let end = end_of(applied.take(count)) as int;
    let shift = before.len() - end;
    let whole = rewritten(source, applied);
    if count == applied.len() {
        assert(applied.take(count) =~= applied);
        let rest = source.subrange(end, source.len() as int);
        assert(whole.subrange(from + shift, to + shift) =~= rest.subrange(from - end, to - end));
        assert(rest.subrange(from - end, to - end) =~= source.subrange(from, to));
    } else {
        let next = applied[count];
        let through = applied.take(count + 1);
        assert(next.applicable(source.len()));
        assert(through.drop_last() =~= applied.take(count));
        assert(through.last() == next);
        let copied = source.subrange(end, next.start as int);
        let rewritten_through = rewritten_up_to(source, through);
        assert(rewritten_through == before + copied + next.content);
        rewritten_up_to_grows(source, applied, count + 1);
        assert(whole.subrange(from + shift, to + shift) =~= rewritten_through.subrange(
            from + shift,
            to + shift,
        ));
        assert(rewritten_through.subrange(from + shift, to + shift) =~= copied.subrange(
            from - end,
            to - end,
        ));
        assert(copied.subrange(from - end, to - end) =~= source.subrange(from, to));
    }
}

} // verus!
