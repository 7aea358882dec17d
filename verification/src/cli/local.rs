//! The machine driven against a store at hand: no waiting is needed there, and
//! the whole step is one call.

use crate::cli::simulator::{after_coin, request_at, weight, Machine, Request, Simulator};
use crate::cli::soundness::{
    can_end, lemma_machine_answer, lemma_machine_coin, lemma_machine_start,
    lemma_machine_unknown, lemma_unwind_progress, primitive_step,
};
use crate::event_handler::handle_event;
use crate::model::data::{is_primitive_name, lemma_names_and_operators, Agent, Expr};
use crate::model::error::CLIError;
use crate::model::event::Event;
use crate::semantics::{
    attempts_to, lemma_attempt_ends, primitive_answer, steps_to, Outcome, Trial,
};
use crate::store::StoreTrait;
use vstd::prelude::*;

verus! {

impl Simulator {
    /// One step of `agent` against the store `blackboard`, move by move: the
    /// machine asks, a coin is tossed or the store answers, until the step is
    /// done.
    ///
    /// What comes out is the end of an attempt at a step of `agent` by the
    /// rules, with the coins as they fell. It is a step, unless the attempt
    /// comes to a primitive whose name is none of the four: then, and only
    /// then, it is the error that names that primitive. The primitives tried
    /// before it were stuck, so the store is then as it was. A runnable agent
    /// always gets its step.
    pub fn run_one_on<S: StoreTrait>(&mut self, blackboard: &mut S, agent: Expr) -> (res: Result<
        (bool, Expr),
        CLIError,
    >)
        requires
            old(self).wf(),
            old(self)@.focus is Empty,
            agent@.is_reducible(),
        ensures
            final(self).wf(),
            final(self)@ == (Machine { frames: Seq::empty(), focus: Agent::Empty }),
            match res {
                Ok((progress, residual)) => attempts_to(
                    old(blackboard).counts(),
                    agent@,
                    Trial::Stepped(
                        Outcome {
                            progress,
                            residual: residual@,
                            store: final(blackboard).counts(),
                        },
                    ),
                ),
                Err(CLIError::UnknownPrimitive(name)) => attempts_to(
                    old(blackboard).counts(),
                    agent@,
                    Trial::Unknown(name@),
                ),
                Err(_) => false,
            },
            res is Err ==> final(blackboard).counts() == old(blackboard).counts(),
            agent@.is_runnable() ==> res is Ok,
            res matches Ok((progress, residual)) ==> steps_to(
                old(blackboard).counts(),
                agent@,
                progress,
                residual@,
                final(blackboard).counts(),
            ),
            res matches Err(CLIError::UnknownPrimitive(name)) ==> agent@.mentions(name@)
                && !is_primitive_name(name@),
    {
        let ghost start = blackboard.counts();
        let ghost whole = agent@;
        let mut request = self.run_one(agent);
        proof {
            assert forall|end: Trial| can_end(self@, start, end) implies attempts_to(
                start,
                whole,
                end,
            ) by {
                lemma_machine_start(whole, start, end);
            }
        }
        loop
            invariant
                self.wf(),
                start == old(blackboard).counts(),
                whole == agent@,
                request@ == request_at(self@.focus) || request is Done,
                request matches Request::Done { progress, residual } ==> attempts_to(
                    start,
                    whole,
                    Trial::Stepped(
                        Outcome { progress, residual: residual@, store: blackboard.counts() },
                    ),
                ) && self@ == (Machine { frames: Seq::empty(), focus: Agent::Empty }),
                !(request is Done) ==> blackboard.counts() == start && !(self@.focus is Empty),
                !(request is Done) ==> forall|end: Trial|
                    can_end(self@, start, end) ==> attempts_to(start, whole, end),
            decreases (if request is Done {
                0nat
            } else {
                weight(self@) + 1
            }),
        {
            let ghost before = self@;
            match request {
                Request::Done { progress, residual } => {
                    proof {
                        lemma_attempt_ends(
                            start,
                            whole,
                            Trial::Stepped(
                                Outcome {
                                    progress,
                                    residual: residual@,
                                    store: blackboard.counts(),
                                },
                            ),
                        );
                    }
                    return Ok((progress, residual));
                },
                Request::Toss => {
                    request = self.toss_coin();
                    proof {
                        let coin = self@ == after_coin(before, true);
                        assert forall|end: Trial| can_end(self@, start, end) implies attempts_to(
                            start,
                            whole,
                            end,
                        ) by {
                            lemma_machine_coin(before, coin, start, end);
                        }
                    }
                },
                Request::Exec { primitive, coord_data } => {
                    let ghost name = primitive@;
                    let ghost token = coord_data@;
                    let action = match Simulator::exec_primitive(
                        primitive.as_str(),
                        coord_data.as_str(),
                    ) {
                        Ok(action) => action,
                        Err(e) => {
                            proof {
                                lemma_machine_unknown(before, start);
                                lemma_attempt_ends(start, whole, Trial::Unknown(name));
                            }
                            self.abandon();
                            return Err(e);
                        },
                    };
                    let answer = handle_event(blackboard, Event::new(action));
                    proof {
                        lemma_names_and_operators();
                    }
                    assert(is_primitive_name(name));
                    assert(answer == primitive_answer(start, name, token));
                    assert(blackboard.counts() == primitive_step(start, name, token).store);
                    request = self.answer(answer);
                    proof {
                        if request is Done {
                            let end = Trial::Stepped(
                                Outcome {
                                    progress: request->progress,
                                    residual: request->residual@,
                                    store: blackboard.counts(),
                                },
                            );
                            lemma_machine_answer(before, start, end);
                            assert(self@.frames =~= Seq::empty());
                        } else {
                            assert forall|end: Trial| can_end(self@, start, end) implies attempts_to(
                                start,
                                whole,
                                end,
                            ) by {
                                lemma_machine_answer(before, start, end);
                            }
                            // The primitive was stuck and the store is as it was.
                            assert(!answer) by {
                                if answer {
                                    lemma_unwind_progress(
                                        before.frames,
                                        primitive_step(start, name, token),
                                    );
                                }
                            }
                        }
                    }
                },
            }
        }
    }
}

} // verus!
