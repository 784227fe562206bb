//! Priorities and ceilings, as they are checked before the system starts.

use crate::priority::MAX_PRIORITY;
use vstd::prelude::*;

verus! {

/// A task has a priority that no line can have, or a resource is declared
/// with a ceiling that one of the tasks using it exceeds.
#[derive(Clone, Copy, Debug, PartialEq, Eq, Structural)]
pub struct PriorityMisassignment;

/// Whether a task can have priority `priority`.
pub open spec fn task_priority(priority: u8) -> bool {
    1 <= priority <= MAX_PRIORITY
}

/// The highest of `priorities`, and 0 if there are none.
pub open spec fn highest(priorities: Seq<u8>) -> u8
    decreases priorities.len(),
{
    if priorities.len() == 0 {
        0
    } else if priorities.last() > highest(priorities.drop_last()) {
        priorities.last()
    } else {
        highest(priorities.drop_last())
    }
}

/// `highest` is one of the priorities, and none of them exceeds it.
pub proof fn lemma_highest(priorities: Seq<u8>)
    ensures
        forall|i: int| 0 <= i < priorities.len() ==> #[trigger] priorities[i] <= highest(priorities),
        priorities.len() > 0 ==> exists|i: int|
            0 <= i < priorities.len() && #[trigger] priorities[i] == highest(priorities),
    decreases priorities.len(),
{
    if priorities.len() > 0 {
        let earlier = priorities.drop_last();
        lemma_highest(earlier);
        assert forall|i: int| 0 <= i < earlier.len() implies earlier[i] == priorities[i] by {}
        if priorities.last() > highest(earlier) {
            assert(priorities[priorities.len() - 1] == highest(priorities));
        } else if earlier.len() > 0 {
            let i = choose|i: int| 0 <= i < earlier.len() && #[trigger] earlier[i] == highest(earlier);
            assert(priorities[i] == highest(priorities));
        } else {
            assert(priorities[0] == highest(priorities));
        }
    }
}

/// The ceiling of a resource that tasks of the priorities `users` access:
/// the highest of those priorities. A resource without users, or a user
/// with a priority that no task can have, is a misassignment.
pub fn ceiling(users: &Vec<u8>) -> (computed: Result<u8, PriorityMisassignment>)
    ensures
        computed is Ok <==> users@.len() > 0 && forall|i: int|
            0 <= i < users@.len() ==> task_priority(#[trigger] users@[i]),
        computed matches Ok(c) ==> c == highest(users@) && task_priority(c),
{
    if users.len() == 0 {
        return Err(PriorityMisassignment);
    }
    let mut top: u8 = 0;
    let mut i: usize = 0;
    while i < users.len()
        invariant
            i <= users@.len(),
            top == highest(users@.take(i as int)),
            forall|j: int| 0 <= j < i ==> task_priority(#[trigger] users@[j]),
            i > 0 ==> task_priority(top),
        decreases users@.len() - i,
    {
        let priority: u8 = users[i];
        if priority < 1 || priority > MAX_PRIORITY {
            return Err(PriorityMisassignment);
        }
        proof {
            assert(users@.take(i + 1).drop_last() =~= users@.take(i as int));
        }
        if priority > top {
            top = priority;
        }
        i = i + 1;
    }
    proof {
        assert(users@.take(users@.len() as int) =~= users@);
    }
    Ok(top)
}

/// Checks the ceiling `declared` for a resource against the tasks that
/// access it: it has to be a priority that a task can have, and none of the
/// users' priorities may exceed it.
pub fn check_ceiling(declared: u8, users: &Vec<u8>) -> (checked: Result<(), PriorityMisassignment>)
    ensures
        checked is Ok <==> task_priority(declared) && forall|i: int|
            0 <= i < users@.len() ==> task_priority(#[trigger] users@[i]) && users@[i] <= declared,
{
    if declared < 1 || declared > MAX_PRIORITY {
        return Err(PriorityMisassignment);
    }
    let mut i: usize = 0;
    while i < users.len()
        invariant
            i <= users@.len(),
            task_priority(declared),
            forall|j: int|
                0 <= j < i ==> task_priority(#[trigger] users@[j]) && users@[j] <= declared,
        decreases users@.len() - i,
    {
        let priority: u8 = users[i];
        if priority < 1 || priority > declared {
            return Err(PriorityMisassignment);
        }
        i = i + 1;
    }
    Ok(())
}

} // verus!
