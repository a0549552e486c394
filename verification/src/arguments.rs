//! Binding the actual arguments of a call to the formals a rule asks for.
//!
//! A formal is bound to the first argument that carries exactly its name.
//! Where no argument does, it is bound to the argument that stands at the
//! formal's position among the arguments without a name, counted from 1.
//! Names are never matched by prefix.
//!
//! Where the argument of that name stands behind so many arguments without
//! a name that they reach the formal's position, the formal would be bound
//! twice. Nothing is bound then: a rule that cannot tell what a call means
//! passes it over.

use vstd::prelude::*;
use crate::call::Argument;

verus! {

/// The index of the first argument that carries exactly the name `name`.
pub open spec fn index_by_name(args: Seq<Argument>, name: Seq<char>) -> Option<int>
    decreases args.len(),
{
    if args.len() == 0 {
        None
    } else {
        match index_by_name(args.drop_last(), name) {
            Some(i) => Some(i),
            None => if args.last().named(name) {
                Some(args.len() - 1)
            } else {
                None
            },
        }
    }
}

/// The number of arguments without a name.
pub open spec fn positional_count(args: Seq<Argument>) -> nat
    decreases args.len(),
{
    if args.len() == 0 {
        0
    } else if args.last().positional() {
        positional_count(args.drop_last()) + 1
    } else {
        positional_count(args.drop_last())
    }
}

/// The index of the argument that stands at `position`, counted from 1,
/// among the arguments without a name.
pub open spec fn index_by_position(args: Seq<Argument>, position: nat) -> Option<int>
    decreases args.len(),
{
    if args.len() == 0 {
        None
    } else {
        match index_by_position(args.drop_last(), position) {
            Some(i) => Some(i),
            None => if args.last().positional() && positional_count(args) == position {
                Some(args.len() - 1)
            } else {
                None
            },
        }
    }
}

/// The first argument of the name `name` stands behind `position` or more
/// arguments without a name, which fill the formal's place already.
pub open spec fn slot_taken(args: Seq<Argument>, name: Seq<char>, position: nat) -> bool {
    match index_by_name(args, name) {
        Some(i) => positional_count(args.take(i)) >= position,
        None => false,
    }
}

/// The index of the argument bound to the formal `name` that stands at
/// `position` among the formals: the first one of that name, unless the
/// formal's place is filled before it; without one of that name, the one at
/// that position among the arguments without a name.
pub open spec fn bound_index(args: Seq<Argument>, name: Seq<char>, position: nat) -> Option<int> {
    match index_by_name(args, name) {
        Some(i) => if positional_count(args.take(i)) < position {
            Some(i)
        } else {
            None
        },
        None => index_by_position(args, position),
    }
}

/// `found` is the argument at `index`, and is none where `index` is none.
pub open spec fn is_argument_at(
    found: Option<&Argument>,
    args: Seq<Argument>,
    index: Option<int>,
) -> bool {
    match index {
        Some(i) => found == Some(&args[i]),
        None => found is None,
    }
}

/// What `index_by_name` finds is the first argument of that name, and it
/// finds nothing only where no argument has the name.
pub proof fn index_by_name_is_first(args: Seq<Argument>, name: Seq<char>)
    ensures
        match index_by_name(args, name) {
            Some(i) => {
                &&& 0 <= i < args.len()
                &&& args[i].named(name)
                &&& forall|j: int| 0 <= j < i ==> !(#[trigger] args[j]).named(name)
            },
            None => forall|j: int| 0 <= j < args.len() ==> !(#[trigger] args[j]).named(name),
        },
    decreases args.len(),
{
    if args.len() > 0 {
        index_by_name_is_first(args.drop_last(), name);
        match index_by_name(args.drop_last(), name) {
            Some(i) => {
                assert(args.drop_last()[i] == args[i]);
                assert forall|j: int| 0 <= j < i implies !(#[trigger] args[j]).named(name) by {
                    assert(args.drop_last()[j] == args[j]);
                }
            },
            None => {
                assert forall|j: int| 0 <= j < args.len() - 1 implies !(#[trigger] args[j]).named(
                    name,
                ) by {
                    assert(args.drop_last()[j] == args[j]);
                }
            },
        }
    }
}

/// What `index_by_position` finds is an argument without a name that has
/// `position - 1` such arguments before it, and it finds nothing only
/// where no argument is such.
pub proof fn index_by_position_counts(args: Seq<Argument>, position: nat)
    ensures
        match index_by_position(args, position) {
            Some(i) => {
                &&& 0 <= i < args.len()
                &&& args[i].positional()
                &&& positional_count(args.take(i)) + 1 == position
            },
            None => forall|j: int|
                0 <= j < args.len() && (#[trigger] args[j]).positional() ==> positional_count(
                    args.take(j),
                ) + 1 != position,
        },
    decreases args.len(),
{
    if args.len() > 0 {
        let front = args.drop_last();
        index_by_position_counts(front, position);
        assert(args.take(args.len() - 1) =~= front);
        match index_by_position(front, position) {
            Some(i) => {
                assert(front[i] == args[i]);
                assert(front.take(i) =~= args.take(i));
            },
            None => {
                if !(args.last().positional() && positional_count(args) == position) {
                    assert forall|j: int|
                        0 <= j < args.len() && (#[trigger] args[j]).positional() implies positional_count(
                        args.take(j),
                    ) + 1 != position by {
                        if j < args.len() - 1 {
                            assert(front[j] == args[j]);
                            assert(front.take(j) =~= args.take(j));
                        }
                    }
                }
            },
        }
    }
}

/// Where there are `position` or more arguments without a name, and
/// `position` is not 0, one of them stands at `position`.
pub proof fn positional_count_reaches(args: Seq<Argument>, position: nat)
    ensures
        index_by_position(args, position) is Some <==> 1 <= position <= positional_count(args),
    decreases args.len(),
{
    if args.len() > 0 {
        positional_count_reaches(args.drop_last(), position);
    }
}

proof fn name_found_in_prefix(args: Seq<Argument>, name: Seq<char>, upto: int)
    requires
        0 <= upto <= args.len(),
        index_by_name(args.take(upto), name) is Some,
    ensures
        index_by_name(args, name) == index_by_name(args.take(upto), name),
    decreases args.len() - upto,
{
    if upto < args.len() {
        assert(args.take(upto + 1).drop_last() =~= args.take(upto));
        name_found_in_prefix(args, name, upto + 1);
    } else {
        assert(args.take(upto) =~= args);
    }
}

proof fn position_found_in_prefix(args: Seq<Argument>, position: nat, upto: int)
    requires
        0 <= upto <= args.len(),
        index_by_position(args.take(upto), position) is Some,
    ensures
        index_by_position(args, position) == index_by_position(args.take(upto), position),
    decreases args.len() - upto,
{
    if upto < args.len() {
        assert(args.take(upto + 1).drop_last() =~= args.take(upto));
        position_found_in_prefix(args, position, upto + 1);
    } else {
        assert(args.take(upto) =~= args);
    }
}

fn find_by_name(args: &Vec<Argument>, name: &str) -> (found: Option<usize>)
    ensures
        match found {
            Some(i) => index_by_name(args@, name@) == Some(i as int) && i < args.len(),
            None => index_by_name(args@, name@) is None,
        },
{
    let wanted = name.to_owned();
    let mut i: usize = 0;
    assert(args@.take(0) =~= Seq::<Argument>::empty());
    while i < args.len()
        invariant
            i <= args.len(),
            wanted@ == name@,
            index_by_name(args@.take(i as int), name@) is None,
        decreases args.len() - i,
    {
        let arg = &args[i];
        assert(args@.take(i + 1).drop_last() =~= args@.take(i as int));
        assert(args@.take(i + 1).last() == *arg);
        let hit = match &arg.name {
            Some(n) => *n == wanted,
            None => false,
        };
        if hit {
            proof {
                name_found_in_prefix(args@, name@, i + 1);
            }
            return Some(i);
        }
        i += 1;
    }
    assert(args@.take(args.len() as int) =~= args@);
    None
}

fn count_positional(args: &Vec<Argument>, upto: usize) -> (count: usize)
    requires
        upto <= args.len(),
    ensures
        count as nat == positional_count(args@.take(upto as int)),
        count <= upto,
{
    let mut count: usize = 0;
    let mut i: usize = 0;
    assert(args@.take(0) =~= Seq::<Argument>::empty());
    while i < upto
        invariant
            i <= upto <= args.len(),
            count <= i,
            count as nat == positional_count(args@.take(i as int)),
        decreases upto - i,
    {
        assert(args@.take(i + 1).drop_last() =~= args@.take(i as int));
        assert(args@.take(i + 1).last() == args[i as int]);
        if args[i].name.is_none() {
            count += 1;
        }
        i += 1;
    }
    count
}

/// The first argument that carries exactly the name `name`, wherever it
/// stands.
pub fn get_arg_by_name<'a>(args: &'a Vec<Argument>, name: &str) -> (found: Option<&'a Argument>)
    ensures
        is_argument_at(found, args@, index_by_name(args@, name@)),
        match found {
            Some(arg) => arg.named(name@),
            None => forall|i: int| 0 <= i < args.len() ==> !(#[trigger] args[i]).named(name@),
        },
{
    proof {
        index_by_name_is_first(args@, name@);
    }
    match find_by_name(args, name) {
        Some(i) => Some(&args[i]),
        None => None,
    }
}

/// The argument that stands at `position`, counted from 1, among the
/// arguments without a name.
pub fn get_arg_by_position<'a>(args: &'a Vec<Argument>, position: usize) -> (found: Option<
    &'a Argument,
>)
    ensures
        is_argument_at(found, args@, index_by_position(args@, position as nat)),
        match found {
            Some(arg) => arg.positional(),
            None => position == 0 || positional_count(args@) < position,
        },
{
    proof {
        index_by_position_counts(args@, position as nat);
        positional_count_reaches(args@, position as nat);
    }
    let mut seen: usize = 0;
    let mut i: usize = 0;
    assert(args@.take(0) =~= Seq::<Argument>::empty());
    while i < args.len()
        invariant
            i <= args.len(),
            seen <= i,
            seen as nat == positional_count(args@.take(i as int)),
            index_by_position(args@.take(i as int), position as nat) is None,
        decreases args.len() - i,
    {
        let arg = &args[i];
        assert(args@.take(i + 1).drop_last() =~= args@.take(i as int));
        assert(args@.take(i + 1).last() == *arg);
        if arg.name.is_none() {
            seen += 1;
            if seen == position {
                proof {
                    position_found_in_prefix(args@, position as nat, i + 1);
                }
                return Some(arg);
            }
        }
        i += 1;
    }
    assert(args@.take(args.len() as int) =~= args@);
    None
}

/// The argument bound to the formal `name` that stands at `position`,
/// counted from 1, among the formals.
///
/// The first argument of that name is bound, unless `position` or more
/// arguments without a name stand before it: then nothing is bound. Without
/// an argument of that name, the argument at `position` among those without
/// a name is bound. The argument is returned also where it has no value.
pub fn get_arg_by_name_then_position<'a>(
    args: &'a Vec<Argument>,
    name: &str,
    position: usize,
) -> (found: Option<&'a Argument>)
    ensures
        is_argument_at(found, args@, bound_index(args@, name@, position as nat)),
        match found {
            Some(arg) => arg.named(name@) || arg.positional(),
            None => true,
        },
        (exists|i: int| 0 <= i < args.len() && (#[trigger] args[i]).named(name@)) && !slot_taken(
            args@,
            name@,
            position as nat,
        ) ==> found is Some && found->0.named(name@),
{
    proof {
        index_by_name_is_first(args@, name@);
        index_by_position_counts(args@, position as nat);
    }
    match find_by_name(args, name) {
        Some(i) => if count_positional(args, i) < position {
            Some(&args[i])
        } else {
            None
        },
        None => get_arg_by_position(args, position),
    }
}

/// An argument that is given by exact name is bound to that name's formal
/// wherever it stands among the named arguments and whatever stands at the
/// formal's position, as long as the formal's place is not filled before
/// it: the first argument of that name is bound.
pub proof fn named_argument_wins(
    args: Seq<Argument>,
    name: Seq<char>,
    position: nat,
    at: int,
)
    requires
        0 <= at < args.len(),
        args[at].named(name),
        !slot_taken(args, name, position),
    ensures
        bound_index(args, name, position) == index_by_name(args, name),
        match bound_index(args, name, position) {
            Some(i) => {
                &&& 0 <= i <= at
                &&& args[i].named(name)
                &&& forall|j: int| 0 <= j < i ==> !(#[trigger] args[j]).named(name)
            },
            None => false,
        },
{
    index_by_name_is_first(args, name);
}

/// Where the place of the formal is filled before the argument of its name,
/// nothing is bound to it.
pub proof fn taken_slot_binds_nothing(args: Seq<Argument>, name: Seq<char>, position: nat)
    requires
        slot_taken(args, name, position),
    ensures
        bound_index(args, name, position) is None,
{
}

/// A call without arguments binds nothing.
pub proof fn no_arguments_bind_nothing(name: Seq<char>, position: nat)
    ensures
        bound_index(Seq::<Argument>::empty(), name, position) is None,
{
}

/// What is bound is an argument of the call: one of the formal's name, or
/// one without a name.
pub proof fn bound_index_is_an_argument(args: Seq<Argument>, name: Seq<char>, position: nat)
    ensures
        match bound_index(args, name, position) {
            Some(i) => 0 <= i < args.len() && (args[i].named(name) || args[i].positional()),
            None => true,
        },
{
    index_by_name_is_first(args, name);
    index_by_position_counts(args, position);
}

proof fn all_positional_count(args: Seq<Argument>)
    requires
        forall|i: int| 0 <= i < args.len() ==> (#[trigger] args[i]).positional(),
    ensures
        positional_count(args) == args.len(),
    decreases args.len(),
{
    if args.len() > 0 {
        assert forall|i: int| 0 <= i < args.drop_last().len() implies (
        #[trigger] args.drop_last()[i]).positional() by {
            assert(args[i].positional());
        }
        all_positional_count(args.drop_last());
        assert(args[args.len() - 1].positional());
    }
}

/// Where no argument has a name, the formal at `position` is bound to the
/// argument at that position, and to none where there are fewer arguments.
pub proof fn positional_arguments_bind_in_order(
    args: Seq<Argument>,
    name: Seq<char>,
    position: nat,
)
    requires
        forall|i: int| 0 <= i < args.len() ==> (#[trigger] args[i]).positional(),
    ensures
        bound_index(args, name, position) == if 1 <= position <= args.len() {
            Some(position - 1)
        } else {
            None::<int>
        },
{
    index_by_name_is_first(args, name);
    index_by_position_counts(args, position);
    assert(index_by_name(args, name) is None) by {
        if index_by_name(args, name) is Some {
            let i = index_by_name(args, name)->0;
            assert(args[i].positional());
        }
    }
    assert forall|j: int| 0 <= j <= args.len() implies positional_count(
        #[trigger] args.take(j),
    ) == j by {
        assert forall|i: int| 0 <= i < args.take(j).len() implies (
        #[trigger] args.take(j)[i]).positional() by {
            assert(args[i].positional());
        }
        all_positional_count(args.take(j));
    }
    match index_by_position(args, position) {
        Some(i) => {
            assert(positional_count(args.take(i)) == i);
        },
        None => {
            if 1 <= position <= args.len() {
                let j = position - 1;
                assert(args[j].positional());
                assert(positional_count(args.take(j)) == j);
            }
        },
    }
}

} // verus!
