//! The machine takes the steps that the reduction rules allow, and no others.
//!
//! While a step is under way the machine stands somewhere inside the agent. The
//! ends that the rules allow from there are given by [`can_end`]: a step, or
//! the name of a primitive that is none of the four, where the attempt comes to
//! one. The laws of this file say that a move of the machine never leads to an
//! end that was not allowed before the move, that the ends allowed at the start
//! are the attempts at a step of the agent, and that the end which the machine
//! reports at last is an allowed one. So whatever a machine reports, when each
//! answer it was given is the store's answer, is a step of the agent by the
//! rules; and where it stands at a primitive of an unknown name, an attempt at
//! a step of the agent stops at that name.

use crate::cli::simulator::{
    after_answer, after_coin, descend, frames_reducible, lemma_descend_stops, unwind, FrameView,
    Machine, RequestView,
};
use crate::model::data::{is_primitive_name, Agent};
use crate::semantics::{
    attempt, attempts_to, choice_second_rule, parallel_first_rule, parallel_second_rule,
    primitive_answer, sequence_rule, step, Outcome, Schedule, Trial,
};
use vstd::prelude::*;

verus! {

/// An operator that the step has entered, with the coins for the operand that
/// may still have to be tried.
pub struct Pending {
    pub frame: FrameView,
    pub plan: Schedule,
}

/// The operators of a list of pending ones.
pub open spec fn frames_of(stack: Seq<Pending>) -> Seq<FrameView> {
    stack.map_values(|pending: Pending| pending.frame)
}

/// The step of the whole agent above `o`, by the rule of the operator `frame`
/// that stands directly above it, where that operator does not have to try
/// its other operand.
pub open spec fn lifted(frame: FrameView, o: Outcome) -> Outcome {
    match frame {
        FrameView::Sequence(right) => {
            let result = sequence_rule(o.progress, o.residual, right);
            Outcome { progress: result.0, residual: result.1, store: o.store }
        },
        FrameView::First(op, other) => {
            let left = if op == "||"@ {
                parallel_first_rule(o.residual, other).1
            } else {
                o.residual
            };
            Outcome { progress: true, residual: left, store: o.store }
        },
        FrameView::Second(op, first) => {
            let result = if op == "||"@ {
                parallel_second_rule(first, o.progress, o.residual)
            } else {
                choice_second_rule(first, o.progress, o.residual)
            };
            Outcome { progress: result.0, residual: result.1, store: o.store }
        },
    }
}

/// The end of the attempt at a step of the whole agent, from the end `trial` of
/// the attempt at the agent below the operators of `stack`: each operator, the
/// innermost first, turns the step of its operand into its own by its rule, and
/// tries its other operand with its coins where the one tried first was stuck.
/// An unknown name ends the whole attempt.
pub open spec fn plug(stack: Seq<Pending>, trial: Trial) -> Trial
    decreases stack.len(),
{
    if stack.len() == 0 {
        trial
    } else {
        let outer = stack.drop_last();
        let top = stack.last();
        match trial {
            Trial::Unknown(name) => Trial::Unknown(name),
            Trial::Stepped(o) => {
                if top.frame is First && !o.progress {
                    let op = top.frame->First_0;
                    let other = top.frame->First_1;
                    match attempt(o.store, other, top.plan) {
                        Trial::Unknown(name) => Trial::Unknown(name),
                        Trial::Stepped(second) => plug(
                            outer,
                            Trial::Stepped(lifted(FrameView::Second(op, o.residual), second)),
                        ),
                    }
                } else {
                    plug(outer, Trial::Stepped(lifted(top.frame, o)))
                }
            },
        }
    }
}

/// The whole attempt can end as `result` when the attempt at the agent below
/// the operators of `frames` has ended as `trial`.
pub open spec fn ends_from(frames: Seq<FrameView>, trial: Trial, result: Trial) -> bool {
    exists|stack: Seq<Pending>|
        frames_of(stack) == frames && #[trigger] plug(stack, trial) == result
}

/// The whole attempt can end as `result` when the machine stands as `machine`
/// says and the store is `m`: the agent at which it stands is attempted by the
/// rules, and the operators entered make their steps of its step.
pub open spec fn can_end(machine: Machine, m: Map<Seq<char>, u32>, result: Trial) -> bool {
    exists|here: Schedule|
        ends_from(machine.frames, #[trigger] attempt(m, machine.focus, here), result)
}

/// The outcome of the primitive `name` on `token` in the store `m`.
pub open spec fn primitive_step(m: Map<Seq<char>, u32>, name: Seq<char>, token: Seq<char>) -> Outcome {
    step(m, Agent::Prim(name, token), Schedule::Done)
}

/// The operators of `frames`, each with no coins.
pub open spec fn without_coins(frames: Seq<FrameView>) -> Seq<Pending> {
    frames.map_values(|frame: FrameView| Pending { frame, plan: Schedule::Done })
}

/// A list of pending operators with one more on it ends on that one, and the
/// others are below it.
proof fn lemma_stack_push(stack: Seq<Pending>, top: Pending)
    ensures
        frames_of(stack.push(top)) == frames_of(stack).push(top.frame),
        stack.push(top).drop_last() == stack,
        stack.push(top).last() == top,
{
    assert(frames_of(stack.push(top)) =~= frames_of(stack).push(top.frame));
    assert(stack.push(top).drop_last() =~= stack);
}

/// A list of pending operators whose operators end on `top` is a shorter list
/// with one pushed on it.
proof fn lemma_stack_split(stack: Seq<Pending>, frames: Seq<FrameView>, top: FrameView)
    requires
        frames_of(stack) == frames.push(top),
    ensures
        stack.len() >= 1,
        stack.last().frame == top,
        frames_of(stack.drop_last()) == frames,
{
    assert(frames_of(stack).len() == frames.len() + 1);
    assert(frames_of(stack)[stack.len() - 1] == top);
    assert(frames_of(stack.drop_last()) =~= frames.push(top).drop_last());
    assert(frames.push(top).drop_last() =~= frames);
}

/// An unknown name ends the whole attempt, whatever operators stand above it.
proof fn lemma_plug_unknown(stack: Seq<Pending>, name: Seq<char>)
    ensures
        plug(stack, Trial::Unknown(name)) == Trial::Unknown(name),
{
}

/// Going down changes nothing in how the attempt can end: an end that is
/// allowed at the place to which the machine goes down from `focus` is allowed
/// at `focus`.
pub proof fn lemma_descend_sound(
    frames: Seq<FrameView>,
    focus: Agent,
    m: Map<Seq<char>, u32>,
    result: Trial,
)
    requires
        can_end(descend(frames, focus), m, result),
    ensures
        can_end(Machine { frames, focus }, m, result),
    decreases focus,
{
    match focus {
        Agent::Op(op, left, right) => {
            if op == ";"@ {
                let inner = frames.push(FrameView::Sequence(*right));
                lemma_descend_sound(inner, *left, m, result);
                let here = choose|here: Schedule|
                    ends_from(inner, #[trigger] attempt(m, *left, here), result);
                let stack = choose|stack: Seq<Pending>|
                    frames_of(stack) == inner && #[trigger] plug(stack, attempt(m, *left, here))
                        == result;
                lemma_stack_split(stack, frames, FrameView::Sequence(*right));
                if let Trial::Unknown(name) = attempt(m, *left, here) {
                    lemma_plug_unknown(stack.drop_last(), name);
                }
                assert(plug(stack.drop_last(), attempt(m, focus, here)) == result);
                assert(ends_from(frames, attempt(m, focus, here), result));
            }
        },
        _ => {},
    }
}

/// At the start of a step of `agent` the ends that are allowed are the ends of
/// the attempts at a step of `agent` by the rules.
pub proof fn lemma_machine_start(agent: Agent, m: Map<Seq<char>, u32>, result: Trial)
    requires
        can_end(descend(Seq::empty(), agent), m, result),
    ensures
        attempts_to(m, agent, result),
{
    lemma_descend_sound(Seq::empty(), agent, m, result);
    let here = choose|here: Schedule|
        ends_from(Seq::empty(), #[trigger] attempt(m, agent, here), result);
    let stack = choose|stack: Seq<Pending>|
        frames_of(stack) == Seq::<FrameView>::empty() && #[trigger] plug(
            stack,
            attempt(m, agent, here),
        ) == result;
    assert(stack.len() == frames_of(stack).len());
    assert(attempt(m, agent, here) == result);
}

/// A coin leads to no end that was not allowed before it: an end that is
/// allowed after the machine took a coin was allowed where it asked for one.
pub proof fn lemma_machine_coin(
    machine: Machine,
    coin: bool,
    m: Map<Seq<char>, u32>,
    result: Trial,
)
    requires
        machine.focus matches Agent::Op(op, _, _) && op != ";"@,
        can_end(after_coin(machine, coin), m, result),
    ensures
        can_end(machine, m, result),
{
    match machine.focus {
        Agent::Op(op, left, right) => {
            let a = if coin {
                *left
            } else {
                *right
            };
            let b = if coin {
                *right
            } else {
                *left
            };
            let inner = machine.frames.push(FrameView::First(op, b));
            lemma_descend_sound(inner, a, m, result);
            let below = choose|here: Schedule|
                ends_from(inner, #[trigger] attempt(m, a, here), result);
            let stack = choose|stack: Seq<Pending>|
                frames_of(stack) == inner && #[trigger] plug(stack, attempt(m, a, below))
                    == result;
            lemma_stack_split(stack, machine.frames, FrameView::First(op, b));
            let here = Schedule::Toss(coin, Box::new(below), Box::new(stack.last().plan));
            if let Trial::Unknown(name) = attempt(m, machine.focus, here) {
                lemma_plug_unknown(stack.drop_last(), name);
            }
            assert(plug(stack.drop_last(), attempt(m, machine.focus, here)) == result);
            assert(ends_from(machine.frames, attempt(m, machine.focus, here), result));
        },
        _ => {},
    }
}

/// Where the machine stands at a primitive whose name is none of the four, the
/// attempt ends at that name.
pub proof fn lemma_machine_unknown(machine: Machine, m: Map<Seq<char>, u32>)
    requires
        machine.focus matches Agent::Prim(name, _) && !is_primitive_name(name),
    ensures
        machine.focus matches Agent::Prim(name, _) && can_end(machine, m, Trial::Unknown(name)),
{
    let name = machine.focus->Prim_0;
    let stack = without_coins(machine.frames);
    assert(frames_of(stack) =~= machine.frames);
    lemma_plug_unknown(stack, name);
    assert(attempt(m, machine.focus, Schedule::Done) == Trial::Unknown(name));
    assert(ends_from(
        machine.frames,
        attempt(m, machine.focus, Schedule::Done),
        Trial::Unknown(name),
    ));
}

/// Where going up from the step `o` ends the whole step, it ends it as the
/// rules say.
pub proof fn lemma_unwind_done(frames: Seq<FrameView>, o: Outcome)
    requires
        frames_reducible(frames),
        unwind(frames, o.progress, o.residual).1 is Done,
    ensures
        unwind(frames, o.progress, o.residual).1 matches RequestView::Done { progress, residual }
            && ends_from(
            frames,
            Trial::Stepped(o),
            Trial::Stepped(Outcome { progress, residual, store: o.store }),
        ),
    decreases frames.len(),
{
    if frames.len() == 0 {
        let stack = Seq::<Pending>::empty();
        assert(frames_of(stack) =~= frames);
        assert(plug(stack, Trial::Stepped(o)) == Trial::Stepped(o));
    } else {
        let outer = frames.drop_last();
        let top = frames.last();
        assert(frames =~= outer.push(top));
        if let FrameView::First(op, other) = top {
            // The step ends here, so the operand tried first has moved: from a
            // stuck one the way would go down into `other`.
            assert(o.progress) by {
                lemma_descend_stops(outer.push(FrameView::Second(op, o.residual)), other);
            }
        }
        let next = lifted(top, o);
        lemma_unwind_done(outer, next);
        let ended = unwind(frames, o.progress, o.residual).1;
        let end = Trial::Stepped(
            Outcome { progress: ended->progress, residual: ended->residual, store: o.store },
        );
        let below = choose|stack: Seq<Pending>|
            frames_of(stack) == outer && #[trigger] plug(stack, Trial::Stepped(next)) == end;
        let stack = below.push(Pending { frame: top, plan: Schedule::Done });
        lemma_stack_push(below, Pending { frame: top, plan: Schedule::Done });
        assert(plug(stack, Trial::Stepped(o)) == end);
    }
}

/// Where going up from the step `o` turns into an operand that was not tried
/// yet, `o` had made no progress, and an end that is allowed at the place in
/// that operand was allowed from `o`.
pub proof fn lemma_unwind_turn(frames: Seq<FrameView>, o: Outcome, result: Trial)
    requires
        frames_reducible(frames),
        !(unwind(frames, o.progress, o.residual).1 is Done),
        can_end(unwind(frames, o.progress, o.residual).0, o.store, result),
    ensures
        !o.progress,
        ends_from(frames, Trial::Stepped(o), result),
    decreases frames.len(),
{
    if frames.len() > 0 {
        let outer = frames.drop_last();
        let top = frames.last();
        assert(frames =~= outer.push(top));
        let turns = top is First && !o.progress;
        if turns {
            let op = top->First_0;
            let other = top->First_1;
            let inner = outer.push(FrameView::Second(op, o.residual));
            lemma_descend_sound(inner, other, o.store, result);
            let here = choose|here: Schedule|
                ends_from(inner, #[trigger] attempt(o.store, other, here), result);
            let stack = choose|stack: Seq<Pending>|
                frames_of(stack) == inner && #[trigger] plug(
                    stack,
                    attempt(o.store, other, here),
                ) == result;
            lemma_stack_split(stack, outer, FrameView::Second(op, o.residual));
            let turned = stack.drop_last().push(Pending { frame: top, plan: here });
            lemma_stack_push(stack.drop_last(), Pending { frame: top, plan: here });
            assert(plug(turned, Trial::Stepped(o)) == result);
        } else {
            let next = lifted(top, o);
            lemma_unwind_turn(outer, next, result);
            let below = choose|stack: Seq<Pending>|
                frames_of(stack) == outer && #[trigger] plug(stack, Trial::Stepped(next))
                    == result;
            let stack = below.push(Pending { frame: top, plan: Schedule::Done });
            lemma_stack_push(below, Pending { frame: top, plan: Schedule::Done });
            assert(plug(stack, Trial::Stepped(o)) == result);
        }
    }
}

/// An answer of the store leads to no end that was not allowed before it.
/// Where the machine reports the end of the step after the answer, that end
/// was allowed, with the store as the primitive left it. Where it goes on, the
/// primitive was stuck and has left the store alone, and an end that is
/// allowed where the machine stands now was allowed where it asked.
pub proof fn lemma_machine_answer(machine: Machine, m: Map<Seq<char>, u32>, result: Trial)
    requires
        frames_reducible(machine.frames),
        machine.focus matches Agent::Prim(name, token) && is_primitive_name(name) && ({
            let moved = after_answer(machine, primitive_answer(m, name, token));
            match moved.1 {
                RequestView::Done { progress, residual } => result == Trial::Stepped(
                    Outcome { progress, residual, store: primitive_step(m, name, token).store },
                ),
                _ => can_end(moved.0, m, result),
            }
        }),
    ensures
        can_end(machine, m, result),
        machine.focus matches Agent::Prim(name, token) && (!(after_answer(
            machine,
            primitive_answer(m, name, token),
        ).1 is Done) ==> !primitive_answer(m, name, token)),
{
    match machine.focus {
        Agent::Prim(name, token) => {
            let o = primitive_step(m, name, token);
            let moved = after_answer(machine, primitive_answer(m, name, token));
            assert(moved == unwind(machine.frames, o.progress, o.residual));
            if moved.1 is Done {
                lemma_unwind_done(machine.frames, o);
            } else {
                if o.progress {
                    lemma_unwind_progress(machine.frames, o);
                }
                lemma_unwind_turn(machine.frames, o, result);
            }
            assert(attempt(m, machine.focus, Schedule::Done) == Trial::Stepped(o));
            assert(ends_from(machine.frames, attempt(m, machine.focus, Schedule::Done), result));
        },
        _ => {},
    }
}

/// Going up from a step that made progress ends the whole step: no operand
/// is tried after one that moved.
pub proof fn lemma_unwind_progress(frames: Seq<FrameView>, o: Outcome)
    requires
        o.progress,
    ensures
        unwind(frames, o.progress, o.residual).1 matches RequestView::Done { progress, .. }
            && progress,
    decreases frames.len(),
{
    if frames.len() > 0 {
        lemma_unwind_progress(frames.drop_last(), lifted(frames.last(), o));
    }
}

} // verus!
