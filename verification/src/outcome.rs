//! Lists of outcomes, in which some faults end the list and others do not.

use vstd::prelude::*;

verus! {

/// Whether the last outcome is a fault after which nothing more is done.
pub open spec fn stopped<T, E>(outcomes: Seq<Result<T, E>>, fatal: spec_fn(E) -> bool) -> bool {
    outcomes.len() > 0 && (outcomes.last() matches Err(e) && fatal(e))
}

/// The outcomes up to the first fatal one, which is the last.
pub open spec fn until_fatal<T, E>(outcomes: Seq<Result<T, E>>, fatal: spec_fn(E) -> bool) -> Seq<
    Result<T, E>,
>
    decreases outcomes.len(),
{
    if outcomes.len() == 0 {
        outcomes
    } else {
        let before = until_fatal(outcomes.drop_last(), fatal);
        if stopped(before, fatal) {
            before
        } else {
            before.push(outcomes.last())
        }
    }
}

/// The values of the outcomes that have one, in order.
pub open spec fn accepted<T, E>(outcomes: Seq<Result<T, E>>) -> Seq<T>
    decreases outcomes.len(),
{
    if outcomes.len() == 0 {
        Seq::empty()
    } else {
        match outcomes.last() {
            Ok(value) => accepted(outcomes.drop_last()).push(value),
            Err(_) => accepted(outcomes.drop_last()),
        }
    }
}

/// Once a fatal outcome came, nothing is added.
pub proof fn lemma_stopped_stays<T, E>(
    outcomes: Seq<Result<T, E>>,
    fatal: spec_fn(E) -> bool,
    k: int,
)
    requires
        0 <= k <= outcomes.len(),
        stopped(until_fatal(outcomes.take(k), fatal), fatal),
    ensures
        until_fatal(outcomes, fatal) == until_fatal(outcomes.take(k), fatal),
    decreases outcomes.len() - k,
{
    if k == outcomes.len() {
        assert(outcomes.take(k) =~= outcomes);
    } else {
        assert(outcomes.take(k + 1).drop_last() =~= outcomes.take(k));
        lemma_stopped_stays(outcomes, fatal, k + 1);
    }
}

/// The list is a first part of the outcomes, and the whole of them where none
/// is fatal. No outcome but its last is fatal.
pub proof fn law_until_fatal<T, E>(outcomes: Seq<Result<T, E>>, fatal: spec_fn(E) -> bool)
    ensures
        ({
            let done = until_fatal(outcomes, fatal);
            &&& done.len() <= outcomes.len()
            &&& done == outcomes.take(done.len() as int)
            &&& forall|i: int|
                0 <= i < done.len() - 1 ==> !((#[trigger] done[i]) matches Err(e) && fatal(e))
            &&& !stopped(done, fatal) ==> done == outcomes
        }),
    decreases outcomes.len(),
{
    if outcomes.len() > 0 {
        let all = outcomes.drop_last();
        let before = until_fatal(all, fatal);
        let done = until_fatal(outcomes, fatal);
        law_until_fatal(all, fatal);
        if stopped(before, fatal) {
            assert(done =~= outcomes.take(done.len() as int));
        } else {
            assert(done =~= outcomes);
            assert forall|i: int| 0 <= i < done.len() - 1 implies !((#[trigger] done[i]) matches Err(
                e,
            ) && fatal(e)) by {
                assert(done[i] == before[i]);
            }
        }
        assert(outcomes.take(outcomes.len() as int) =~= outcomes);
    } else {
        assert(outcomes.take(0) =~= outcomes);
    }
}

/// The list ends early only at a fatal fault: where outcomes are left out, the
/// last one kept is fatal.
pub proof fn law_left_out<T, E>(outcomes: Seq<Result<T, E>>, fatal: spec_fn(E) -> bool)
    requires
        until_fatal(outcomes, fatal) != outcomes,
    ensures
        ({
            let done = until_fatal(outcomes, fatal);
            0 < done.len() < outcomes.len() && (done[done.len() - 1] matches Err(e) && fatal(e))
        }),
{
    law_until_fatal(outcomes, fatal);
    let done = until_fatal(outcomes, fatal);
    if done.len() == outcomes.len() {
        assert(outcomes.take(done.len() as int) =~= outcomes);
    }
}

/// The values of a list are those of its parts, one after the other. A list of
/// one value has that value, and a list of one fault has none.
pub proof fn law_values_join<T, E>(a: Seq<Result<T, E>>, b: Seq<Result<T, E>>, value: T, fault: E)
    ensures
        accepted(a + b) == accepted(a) + accepted(b),
        accepted(seq![Ok::<T, E>(value)]) == seq![value],
        accepted(seq![Err::<T, E>(fault)]) == Seq::<T>::empty(),
        accepted(Seq::<Result<T, E>>::empty()) == Seq::<T>::empty(),
    decreases b.len(),
{
    reveal_with_fuel(accepted, 2);
    assert(seq![Ok::<T, E>(value)].drop_last() =~= Seq::<Result<T, E>>::empty());
    assert(seq![Err::<T, E>(fault)].drop_last() =~= Seq::<Result<T, E>>::empty());
    assert(accepted(seq![Ok::<T, E>(value)]) =~= seq![value]);
    if b.len() == 0 {
        assert(a + b =~= a);
        assert(accepted(a + b) =~= accepted(a) + accepted(b));
    } else {
        law_values_join(a, b.drop_last(), value, fault);
        assert((a + b).drop_last() =~= a + b.drop_last());
        assert(accepted(a + b) =~= accepted(a) + accepted(b));
    }
}

} // verus!
