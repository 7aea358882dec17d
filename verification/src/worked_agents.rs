//! Small agents worked out by the rules, for every token and for every way
//! the coins can fall.

use crate::model::data::{lemma_names_and_operators, Agent};
use crate::semantics::{run, step, Schedule};
use vstd::prelude::*;

verus! {

/// The primitive `name` on `token`.
pub open spec fn prim(name: Seq<char>, token: Seq<char>) -> Agent {
    Agent::Prim(name, token)
}

/// `left` and `right` joined by `op`.
pub open spec fn join(op: Seq<char>, left: Agent, right: Agent) -> Agent {
    Agent::Op(op, Box::new(left), Box::new(right))
}

/// The end of a run that needs `steps` steps: `end` where the plan has coins
/// for that many, and none where it has not.
pub open spec fn after(steps: nat, plan: Seq<Schedule>, end: (bool, Map<Seq<char>, u32>)) -> Option<
    (bool, Map<Seq<char>, u32>),
> {
    if plan.len() >= steps {
        Some(end)
    } else {
        None
    }
}

/// `tell(t);ask(t)` in the empty store runs to its end in two steps and leaves
/// one `t`.
pub proof fn lemma_tell_then_ask_succeeds(t: Seq<char>, plan: Seq<Schedule>)
    ensures
        run(Map::empty(), join(";"@, prim("tell"@, t), prim("ask"@, t)), plan) == after(
            2,
            plan,
            (true, Map::<Seq<char>, u32>::empty().insert(t, 1u32)),
        ),
{
    lemma_names_and_operators();
    reveal_with_fuel(run, 4);
    reveal_with_fuel(step, 3);
    let empty = Map::<Seq<char>, u32>::empty();
    let agent = join(";"@, prim("tell"@, t), prim("ask"@, t));
    if plan.len() > 0 {
        let first = step(empty, agent, plan[0]);
        assert(first.progress && first.residual == prim("ask"@, t));
        assert(first.store == empty.insert(t, 1u32));
        let rest = plan.skip(1);
        if rest.len() > 0 {
            let second = step(first.store, first.residual, rest[0]);
            assert(second.progress && second.residual is Empty);
        }
    }
}

/// `ask(t);tell(t)` in the empty store is stuck at its first step, and the
/// store stays empty.
pub proof fn lemma_ask_then_tell_is_stuck(t: Seq<char>, plan: Seq<Schedule>)
    ensures
        run(Map::empty(), join(";"@, prim("ask"@, t), prim("tell"@, t)), plan) == after(
            1,
            plan,
            (false, Map::<Seq<char>, u32>::empty()),
        ),
{
    lemma_names_and_operators();
    reveal_with_fuel(run, 3);
    reveal_with_fuel(step, 3);
}

/// `tell(t)||get(t)` in the empty store runs to its end in two steps whichever
/// operand is tried first, and leaves the count of `t` at zero.
pub proof fn lemma_tell_beside_get_succeeds(t: Seq<char>, plan: Seq<Schedule>)
    ensures
        run(Map::empty(), join("||"@, prim("tell"@, t), prim("get"@, t)), plan) == after(
            2,
            plan,
            (true, Map::<Seq<char>, u32>::empty().insert(t, 0u32)),
        ),
{
    lemma_names_and_operators();
    reveal_with_fuel(run, 4);
    reveal_with_fuel(step, 3);
    let empty = Map::<Seq<char>, u32>::empty();
    let agent = join("||"@, prim("tell"@, t), prim("get"@, t));
    if plan.len() > 0 {
        let first = step(empty, agent, plan[0]);
        assert(first.progress && first.residual == prim("get"@, t));
        assert(first.store == empty.insert(t, 1u32));
        let rest = plan.skip(1);
        if rest.len() > 0 {
            let second = step(first.store, first.residual, rest[0]);
            assert(second.progress && second.residual is Empty);
            assert(second.store =~= empty.insert(t, 0u32));
        }
    }
}

/// `nask(t)+ask(t)` in the empty store runs to its end in one step whichever
/// operand is tried first: the `nask` is chosen, the `ask` is dropped, and the
/// store stays empty.
pub proof fn lemma_choice_commits(t: Seq<char>, plan: Seq<Schedule>)
    ensures
        run(Map::empty(), join("+"@, prim("nask"@, t), prim("ask"@, t)), plan) == after(
            1,
            plan,
            (true, Map::<Seq<char>, u32>::empty()),
        ),
{
    lemma_names_and_operators();
    reveal_with_fuel(run, 3);
    reveal_with_fuel(step, 3);
    let empty = Map::<Seq<char>, u32>::empty();
    let agent = join("+"@, prim("nask"@, t), prim("ask"@, t));
    if plan.len() > 0 {
        let first = step(empty, agent, plan[0]);
        assert(first.progress && first.residual is Empty && first.store == empty);
    }
}

/// `ask(a)||ask(b)` in the empty store is stuck at its first step whichever
/// operand is tried first.
pub proof fn lemma_asks_side_by_side_are_stuck(a: Seq<char>, b: Seq<char>, plan: Seq<Schedule>)
    ensures
        run(Map::empty(), join("||"@, prim("ask"@, a), prim("ask"@, b)), plan) == after(
            1,
            plan,
            (false, Map::<Seq<char>, u32>::empty()),
        ),
{
    lemma_names_and_operators();
    reveal_with_fuel(run, 3);
    reveal_with_fuel(step, 3);
}

/// `(tell(a);get(b))||(get(a);tell(b))` in a store with one `a` and no `b`
/// runs to its end in four steps, however the coins fall. Each of its four
/// primitives acts once, so the store ends with one `a`, as it began, and with
/// the count of `b` at zero.
pub proof fn lemma_crossed_exchange_succeeds(a: Seq<char>, b: Seq<char>, plan: Seq<Schedule>)
    requires
        a != b,
    ensures
        run(
            Map::<Seq<char>, u32>::empty().insert(a, 1u32),
            join(
                "||"@,
                join(";"@, prim("tell"@, a), prim("get"@, b)),
                join(";"@, prim("get"@, a), prim("tell"@, b)),
            ),
            plan,
        ) == after(4, plan, (true, Map::<Seq<char>, u32>::empty().insert(a, 1u32).insert(b, 0u32))),
{
    lemma_names_and_operators();
    reveal_with_fuel(run, 6);
    reveal_with_fuel(step, 4);
    let empty = Map::<Seq<char>, u32>::empty();
    let start = empty.insert(a, 1u32);
    let end = start.insert(b, 0u32);
    let left = join(";"@, prim("tell"@, a), prim("get"@, b));
    let right = join(";"@, prim("get"@, a), prim("tell"@, b));
    let agent = join("||"@, left, right);
    if plan.len() >= 1 {
        let one = step(start, agent, plan[0]);
        assert(one.progress);
        if plan[0].coin() {
            assert(one.residual == join("||"@, prim("get"@, b), right));
            assert(one.store =~= empty.insert(a, 2u32));
        } else {
            assert(one.residual == join("||"@, prim("tell"@, b), left));
            assert(one.store =~= empty.insert(a, 0u32));
        }
        let plan1 = plan.skip(1);
        if plan1.len() >= 1 {
            let two = step(one.store, one.residual, plan1[0]);
            assert(two.progress);
            let b_told = !plan[0].coin() && plan1[0].coin();
            if b_told {
                assert(two.residual == left);
                assert(two.store =~= empty.insert(a, 0u32).insert(b, 1u32));
            } else {
                assert(two.store =~= start);
                assert(two.residual == join("||"@, prim("get"@, b), prim("tell"@, b))
                    || two.residual == join("||"@, prim("tell"@, b), prim("get"@, b)));
            }
            let plan2 = plan1.skip(1);
            if plan2.len() >= 1 {
                let three = step(two.store, two.residual, plan2[0]);
                assert(three.progress);
                assert(three.residual == prim("get"@, b));
                assert(three.store =~= start.insert(b, 1u32));
                let plan3 = plan2.skip(1);
                if plan3.len() >= 1 {
                    let four = step(three.store, three.residual, plan3[0]);
                    assert(four.progress && four.residual is Empty);
                    assert(four.store =~= end);
                }
            }
        }
    }
}

} // verus!
