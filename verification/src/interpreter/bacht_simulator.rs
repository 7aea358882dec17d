//! Small-step reduction of an agent against a token store.

use crate::chance::toss;
use crate::model::data::{is_primitive_name, lemma_names_and_operators, Agent, Expr};
use crate::rules::{
    choice_second_outcome, parallel_first_outcome, parallel_second_outcome, primitive_outcome,
    sequence_outcome,
};
use crate::semantics::{
    after_primitive, lemma_runnable_has_primitives, lemma_step_shape, ordered_step,
    ordered_steps_to, primitive_answer, run, runs_to, step, steps_to, Outcome, Schedule,
};
use crate::store::StoreTrait;
use crate::text::same_text;
use vstd::prelude::*;

verus! {

/// Runs the primitive `primitive` on `token` against the store and gives its
/// answer.
pub fn exec_primitive<S: StoreTrait>(blackboard: &mut S, primitive: &str, token: &str) -> (res:
    bool)
    requires
        is_primitive_name(primitive@),
    ensures
        res == primitive_answer(old(blackboard).counts(), primitive@, token@),
        final(blackboard).counts() == after_primitive(
            old(blackboard).counts(),
            primitive@,
            token@,
        ),
{
    if same_text(primitive, "tell") {
        blackboard.tell(token.to_owned())
    } else if same_text(primitive, "ask") {
        blackboard.ask(token)
    } else if same_text(primitive, "get") {
        blackboard.get(token.to_owned())
    } else {
        blackboard.nask(token)
    }
}

/// One step of the primitive `prim` on `token`.
pub fn run_one_primitive<S: StoreTrait>(blackboard: &mut S, prim: String, token: String) -> (res: (
    bool,
    Expr,
))
    requires
        is_primitive_name(prim@),
    ensures
        step(old(blackboard).counts(), Agent::Prim(prim@, token@), Schedule::Done) == (Outcome {
            progress: res.0,
            residual: res.1@,
            store: final(blackboard).counts(),
        }),
{
    let answer = exec_primitive(blackboard, prim.as_str(), token.as_str());
    primitive_outcome(prim, token, answer)
}

/// One step of `agent`: the first of its primitives that can act does so. The
/// answer says whether one did, and gives the agent that is left.
pub fn run_one<S: StoreTrait>(blackboard: &mut S, agent: Expr) -> (res: (bool, Expr))
    requires
        agent@.is_runnable(),
    ensures
        steps_to(
            old(blackboard).counts(),
            agent@,
            res.0,
            res.1@,
            final(blackboard).counts(),
        ),
        res.1@ is Empty || res.1@.is_runnable(),
        res.0 ==> res.1@.primitives() < agent@.primitives(),
        !res.0 ==> final(blackboard).counts() == old(blackboard).counts(),
    decreases agent@.nodes(), 2nat,
{
    let ghost before = blackboard.counts();
    let ghost whole = agent@;
    let res = match agent {
        Expr::BachtAstEmptyAgent() => (false, Expr::BachtAstEmptyAgent()),
        Expr::BachtAstPrimitive(prim, token) => run_one_primitive(blackboard, prim, token),
        Expr::BachtAstAgent(op, ag_i, ag_ii) => {
            if same_text(op.as_str(), ";") {
                run_one_sequence(blackboard, *ag_i, *ag_ii)
            } else if same_text(op.as_str(), "||") {
                run_one_parallel(blackboard, *ag_i, *ag_ii)
            } else {
                run_one_choice(blackboard, *ag_i, *ag_ii)
            }
        },
    };
    proof {
        let schedule = choose|schedule: Schedule| #[trigger]
            step(before, whole, schedule) == (Outcome {
                progress: res.0,
                residual: res.1@,
                store: blackboard.counts(),
            });
        lemma_step_shape(before, whole, schedule);
    }
    res
}

/// One step of `ag_i ; ag_ii`: a step of `ag_i`, with `ag_ii` held back until
/// `ag_i` has nothing left to run.
pub fn run_one_sequence<S: StoreTrait>(blackboard: &mut S, ag_i: Expr, ag_ii: Expr) -> (res: (
    bool,
    Expr,
))
    requires
        ag_i@.is_runnable(),
        ag_ii@.is_runnable(),
    ensures
        steps_to(
            old(blackboard).counts(),
            Agent::Op(";"@, Box::new(ag_i@), Box::new(ag_ii@)),
            res.0,
            res.1@,
            final(blackboard).counts(),
        ),
    decreases ag_i@.nodes() + ag_ii@.nodes(), 1nat,
{
    let ghost before = blackboard.counts();
    let ghost left = ag_i@;
    let (progress, ag_cont) = run_one(blackboard, ag_i);
    let ghost schedule = choose|schedule: Schedule| #[trigger]
        step(before, left, schedule) == (Outcome {
            progress,
            residual: ag_cont@,
            store: blackboard.counts(),
        });
    let res = sequence_outcome(progress, ag_cont, ag_ii);
    assert(step(before, Agent::Op(";"@, Box::new(left), Box::new(ag_ii@)), schedule) == (Outcome {
        progress: res.0,
        residual: res.1@,
        store: blackboard.counts(),
    }));
    res
}

/// One step of `ag_i || ag_ii`: a coin says which operand is tried first.
pub fn run_one_parallel<S: StoreTrait>(blackboard: &mut S, ag_i: Expr, ag_ii: Expr) -> (res: (
    bool,
    Expr,
))
    requires
        ag_i@.is_runnable(),
        ag_ii@.is_runnable(),
    ensures
        steps_to(
            old(blackboard).counts(),
            Agent::Op("||"@, Box::new(ag_i@), Box::new(ag_ii@)),
            res.0,
            res.1@,
            final(blackboard).counts(),
        ),
        ordered_steps_to(
            "||"@,
            old(blackboard).counts(),
            ag_i@,
            ag_ii@,
            res.0,
            res.1@,
            final(blackboard).counts(),
        ) || ordered_steps_to(
            "||"@,
            old(blackboard).counts(),
            ag_ii@,
            ag_i@,
            res.0,
            res.1@,
            final(blackboard).counts(),
        ),
    decreases ag_i@.nodes() + ag_ii@.nodes(), 1nat,
{
    let ghost before = blackboard.counts();
    let ghost left = ag_i@;
    let ghost right = ag_ii@;
    let branch_choice = toss();
    let res = if branch_choice {
        parallel_branch_exec(blackboard, ag_i, ag_ii)
    } else {
        parallel_branch_exec(blackboard, ag_ii, ag_i)
    };
    proof {
        lemma_coin_decides("||"@, before, left, right, branch_choice, res.0, res.1@, blackboard.counts());
    }
    res
}

/// One step of `ag_i || ag_ii` with `ag_i` tried first: `ag_ii` is tried only
/// where `ag_i` is stuck, and whichever operand moves, the other stays beside
/// what is left of it.
pub fn parallel_branch_exec<S: StoreTrait>(blackboard: &mut S, ag_i: Expr, ag_ii: Expr) -> (res: (
    bool,
    Expr,
))
    requires
        ag_i@.is_runnable(),
        ag_ii@.is_runnable(),
    ensures
        ordered_steps_to(
            "||"@,
            old(blackboard).counts(),
            ag_i@,
            ag_ii@,
            res.0,
            res.1@,
            final(blackboard).counts(),
        ),
    decreases ag_i@.nodes() + ag_ii@.nodes(), 0nat,
{
    let ghost before = blackboard.counts();
    let ghost a = ag_i@;
    let ghost b = ag_ii@;
    proof {
        a.lemma_nodes_positive();
        b.lemma_nodes_positive();
    }
    let (first_progress, first) = run_one(blackboard, ag_i);
    let ghost for_a = choose|schedule: Schedule| #[trigger]
        step(before, a, schedule) == (Outcome {
            progress: first_progress,
            residual: first@,
            store: blackboard.counts(),
        });
    let ghost between = blackboard.counts();
    if first_progress {
        let res = parallel_first_outcome(first, ag_ii);
        assert(ordered_step("||"@, before, a, b, for_a, Schedule::Done) == (Outcome {
            progress: res.0,
            residual: res.1@,
            store: blackboard.counts(),
        }));
        res
    } else {
        let (second_progress, second) = run_one(blackboard, ag_ii);
        let ghost for_b = choose|schedule: Schedule| #[trigger]
            step(between, b, schedule) == (Outcome {
                progress: second_progress,
                residual: second@,
                store: blackboard.counts(),
            });
        let res = parallel_second_outcome(first, second_progress, second);
        assert(ordered_step("||"@, before, a, b, for_a, for_b) == (Outcome {
            progress: res.0,
            residual: res.1@,
            store: blackboard.counts(),
        }));
        res
    }
}

/// One step of `ag_i + ag_ii`: a coin says which operand is tried first.
pub fn run_one_choice<S: StoreTrait>(blackboard: &mut S, ag_i: Expr, ag_ii: Expr) -> (res: (
    bool,
    Expr,
))
    requires
        ag_i@.is_runnable(),
        ag_ii@.is_runnable(),
    ensures
        steps_to(
            old(blackboard).counts(),
            Agent::Op("+"@, Box::new(ag_i@), Box::new(ag_ii@)),
            res.0,
            res.1@,
            final(blackboard).counts(),
        ),
        ordered_steps_to(
            "+"@,
            old(blackboard).counts(),
            ag_i@,
            ag_ii@,
            res.0,
            res.1@,
            final(blackboard).counts(),
        ) || ordered_steps_to(
            "+"@,
            old(blackboard).counts(),
            ag_ii@,
            ag_i@,
            res.0,
            res.1@,
            final(blackboard).counts(),
        ),
    decreases ag_i@.nodes() + ag_ii@.nodes(), 1nat,
{
    let ghost before = blackboard.counts();
    let ghost left = ag_i@;
    let ghost right = ag_ii@;
    let branch_choice = toss();
    let res = if branch_choice {
        choice_branch_exec(blackboard, ag_i, ag_ii)
    } else {
        choice_branch_exec(blackboard, ag_ii, ag_i)
    };
    proof {
        lemma_coin_decides("+"@, before, left, right, branch_choice, res.0, res.1@, blackboard.counts());
    }
    res
}

/// One step of `ag_i + ag_ii` with `ag_i` tried first: the operand that makes
/// progress is chosen and the other is dropped; where both are stuck the choice
/// stays open.
pub fn choice_branch_exec<S: StoreTrait>(blackboard: &mut S, ag_i: Expr, ag_ii: Expr) -> (res: (
    bool,
    Expr,
))
    requires
        ag_i@.is_runnable(),
        ag_ii@.is_runnable(),
    ensures
        ordered_steps_to(
            "+"@,
            old(blackboard).counts(),
            ag_i@,
            ag_ii@,
            res.0,
            res.1@,
            final(blackboard).counts(),
        ),
    decreases ag_i@.nodes() + ag_ii@.nodes(), 0nat,
{
    let ghost before = blackboard.counts();
    let ghost a = ag_i@;
    let ghost b = ag_ii@;
    proof {
        a.lemma_nodes_positive();
        b.lemma_nodes_positive();
        lemma_names_and_operators();
    }
    let (first_progress, first) = run_one(blackboard, ag_i);
    let ghost for_a = choose|schedule: Schedule| #[trigger]
        step(before, a, schedule) == (Outcome {
            progress: first_progress,
            residual: first@,
            store: blackboard.counts(),
        });
    let ghost between = blackboard.counts();
    if first_progress {
        assert(ordered_step("+"@, before, a, b, for_a, Schedule::Done) == (Outcome {
            progress: true,
            residual: first@,
            store: blackboard.counts(),
        }));
        (true, first)
    } else {
        let (second_progress, second) = run_one(blackboard, ag_ii);
        let ghost for_b = choose|schedule: Schedule| #[trigger]
            step(between, b, schedule) == (Outcome {
                progress: second_progress,
                residual: second@,
                store: blackboard.counts(),
            });
        let res = choice_second_outcome(first, second_progress, second);
        assert(ordered_step("+"@, before, a, b, for_a, for_b) == (Outcome {
            progress: res.0,
            residual: res.1@,
            store: blackboard.counts(),
        }));
        res
    }
}

/// Runs `agent` to its end: step after step until nothing is left to run
/// (`true`) or a step is stuck (`false`).
pub fn bacht_exec_all<S: StoreTrait>(blackboard: &mut S, agent: Expr) -> (res: bool)
    requires
        agent@ is Empty || agent@.is_runnable(),
    ensures
        runs_to(old(blackboard).counts(), agent@, res, final(blackboard).counts()),
        agent@ is Empty ==> res && final(blackboard).counts() == old(blackboard).counts(),
{
    let ghost start = blackboard.counts();
    let ghost whole = agent@;
    let ghost mut done: Seq<Schedule> = Seq::empty();
    let mut current_agent = agent;
    loop
        invariant
            start == old(blackboard).counts(),
            whole == agent@,
            current_agent@ is Empty || current_agent@.is_runnable(),
            forall|rest: Seq<Schedule>| #[trigger]
                run(start, whole, done + rest) == run(blackboard.counts(), current_agent@, rest),
            whole is Empty ==> current_agent@ is Empty && blackboard.counts() == start,
        decreases current_agent@.primitives(), if current_agent@ is Empty { 0nat } else { 1nat },
    {
        if let Expr::BachtAstEmptyAgent() = current_agent {
            proof {
                assert(done + Seq::<Schedule>::empty() == done);
                assert(run(start, whole, done) == Some((true, blackboard.counts())));
            }
            return true;
        }
        let ghost before = blackboard.counts();
        let ghost stepped = current_agent@;
        let (res, new_agent) = run_one(blackboard, current_agent);
        proof {
            let schedule = choose|schedule: Schedule| #[trigger]
                step(before, stepped, schedule) == (Outcome {
                    progress: res,
                    residual: new_agent@,
                    store: blackboard.counts(),
                });
            let grown = done.push(schedule);
            assert forall|rest: Seq<Schedule>| res implies #[trigger] run(start, whole, grown + rest)
                == run(blackboard.counts(), new_agent@, rest) by {
                let tail = seq![schedule] + rest;
                assert(grown + rest == done + tail);
                assert(tail[0] == schedule);
                assert(tail.skip(1) == rest);
            }
            if !res {
                let tail = seq![schedule];
                assert(grown == done + tail);
                assert(tail[0] == schedule);
                assert(run(before, stepped, tail) == Some((false, blackboard.counts())));
                assert(run(start, whole, grown) == Some((false, blackboard.counts())));
            }
            done = grown;
            lemma_runnable_has_primitives(stepped);
        }
        if !res {
            return false;
        }
        current_agent = new_agent;
    }
}

/// The coin of a parallel composition or a choice picks the operand that is
/// tried first: a step of the operands in the order the coin gives is a step of
/// the composed agent.
proof fn lemma_coin_decides(
    op: Seq<char>,
    m: Map<Seq<char>, u32>,
    left: Agent,
    right: Agent,
    coin: bool,
    progress: bool,
    residual: Agent,
    store: Map<Seq<char>, u32>,
)
    requires
        op == "||"@ || op == "+"@,
        coin ==> ordered_steps_to(op, m, left, right, progress, residual, store),
        !coin ==> ordered_steps_to(op, m, right, left, progress, residual, store),
    ensures
        steps_to(m, Agent::Op(op, Box::new(left), Box::new(right)), progress, residual, store),
{
    lemma_names_and_operators();
    let a = if coin {
        left
    } else {
        right
    };
    let b = if coin {
        right
    } else {
        left
    };
    let (for_a, for_b) = choose|for_a: Schedule, for_b: Schedule| #[trigger]
        ordered_step(op, m, a, b, for_a, for_b) == (Outcome { progress, residual, store });
    let schedule = Schedule::Toss(coin, Box::new(for_a), Box::new(for_b));
    assert(step(m, Agent::Op(op, Box::new(left), Box::new(right)), schedule) == ordered_step(
        op,
        m,
        a,
        b,
        for_a,
        for_b,
    ));
}

} // verus!
