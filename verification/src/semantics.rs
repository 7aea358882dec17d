//! What one reduction step of an agent is, as mathematics: the rules by which a
//! primitive acts on the store and by which each operator turns the steps of its
//! operands into its own.

use crate::model::data::{is_primitive_name, Agent};
use crate::occurrences::{after_get, after_tell, ask_answer, nask_answer};
use vstd::prelude::*;

verus! {

/// What a step leaves behind: whether it made progress, the agent that is still
/// to run, and the store after it.
pub struct Outcome {
    pub progress: bool,
    pub residual: Agent,
    pub store: Map<Seq<char>, u32>,
}

/// The coins of one step. A step tosses one coin at each parallel composition
/// and each choice that it enters; the coin says which operand is tried first.
/// `Toss(coin, first, second)` gives that coin, the coins for the step of the
/// operand tried first and those for the step of the other operand.
pub enum Schedule {
    Done,
    Toss(bool, Box<Schedule>, Box<Schedule>),
}

impl Schedule {
    /// The coin at the root: `true` tries the left operand first.
    pub open spec fn coin(self) -> bool {
        match self {
            Schedule::Done => true,
            Schedule::Toss(coin, _, _) => coin,
        }
    }

    /// The coins for the operand that is tried first.
    pub open spec fn first(self) -> Schedule {
        match self {
            Schedule::Done => Schedule::Done,
            Schedule::Toss(_, first, _) => *first,
        }
    }

    /// The coins for the operand that is tried second.
    pub open spec fn second(self) -> Schedule {
        match self {
            Schedule::Done => Schedule::Done,
            Schedule::Toss(_, _, second) => *second,
        }
    }
}

/// The answer of the primitive `name` on `token` in the store `m`.
pub open spec fn primitive_answer(m: Map<Seq<char>, u32>, name: Seq<char>, token: Seq<char>) -> bool {
    if name == "tell"@ {
        true
    } else if name == "ask"@ {
        ask_answer(m, token)
    } else if name == "get"@ {
        ask_answer(m, token)
    } else {
        nask_answer(m, token)
    }
}

/// The store after the primitive `name` on `token`: `tell` and `get` change it,
/// `ask` and `nask` do not.
pub open spec fn after_primitive(
    m: Map<Seq<char>, u32>,
    name: Seq<char>,
    token: Seq<char>,
) -> Map<Seq<char>, u32> {
    if name == "tell"@ {
        after_tell(m, token)
    } else if name == "ask"@ {
        m
    } else if name == "get"@ {
        after_get(m, token)
    } else {
        m
    }
}

/// The step of a primitive: where it answers `true` nothing is left to run,
/// where it answers `false` the primitive stays.
pub open spec fn primitive_rule(name: Seq<char>, token: Seq<char>, answer: bool) -> (bool, Agent) {
    if answer {
        (true, Agent::Empty)
    } else {
        (false, Agent::Prim(name, token))
    }
}

/// The step of `left ; right`, from the step of `left`: the right operand waits
/// until the left one has nothing left to run.
pub open spec fn sequence_rule(progress: bool, left: Agent, right: Agent) -> (bool, Agent) {
    if !progress {
        (false, Agent::Op(";"@, Box::new(left), Box::new(right)))
    } else if left is Empty {
        (true, right)
    } else {
        (true, Agent::Op(";"@, Box::new(left), Box::new(right)))
    }
}

/// The step of a parallel composition whose operand tried first made progress
/// and left `first`: the other operand stays beside what is left.
pub open spec fn parallel_first_rule(first: Agent, other: Agent) -> (bool, Agent) {
    if first is Empty {
        (true, other)
    } else {
        (true, Agent::Op("||"@, Box::new(first), Box::new(other)))
    }
}

/// The step of a parallel composition whose operand tried first was stuck and
/// is now `first`, from the step of the other operand.
pub open spec fn parallel_second_rule(first: Agent, progress: bool, second: Agent) -> (
    bool,
    Agent,
) {
    if !progress {
        (false, Agent::Op("||"@, Box::new(first), Box::new(second)))
    } else if second is Empty {
        (true, first)
    } else {
        (true, Agent::Op("||"@, Box::new(first), Box::new(second)))
    }
}

/// The step of a choice whose operand tried first was stuck and is now `first`,
/// from the step of the other operand: an operand that makes progress is
/// chosen, and the stuck one is dropped.
pub open spec fn choice_second_rule(first: Agent, progress: bool, second: Agent) -> (bool, Agent) {
    if !progress {
        (false, Agent::Op("+"@, Box::new(first), Box::new(second)))
    } else {
        (true, second)
    }
}

/// The step of `op` (parallel composition or choice) over `a` and `b` with `a`
/// tried first: `b` is tried only where `a` is stuck.
pub open spec fn ordered_step(
    op: Seq<char>,
    m: Map<Seq<char>, u32>,
    a: Agent,
    b: Agent,
    for_a: Schedule,
    for_b: Schedule,
) -> Outcome {
    let first = step(m, a, for_a);
    if first.progress {
        let residual = if op == "||"@ {
            parallel_first_rule(first.residual, b).1
        } else {
            first.residual
        };
        Outcome { progress: true, residual, store: first.store }
    } else {
        let second = step(first.store, b, for_b);
        let result = if op == "||"@ {
            parallel_second_rule(first.residual, second.progress, second.residual)
        } else {
            choice_second_rule(first.residual, second.progress, second.residual)
        };
        Outcome { progress: result.0, residual: result.1, store: second.store }
    }
}

/// One reduction step of `agent` in the store `m`, with the coins of
/// `schedule`.
pub open spec fn step(m: Map<Seq<char>, u32>, agent: Agent, schedule: Schedule) -> Outcome
    decreases agent,
{
    match agent {
        Agent::Empty => Outcome { progress: false, residual: Agent::Empty, store: m },
        Agent::Prim(name, token) => {
            let answer = primitive_answer(m, name, token);
            let result = primitive_rule(name, token, answer);
            Outcome {
                progress: result.0,
                residual: result.1,
                store: if answer {
                    after_primitive(m, name, token)
                } else {
                    m
                },
            }
        },
        Agent::Op(op, left, right) => {
            if op == ";"@ {
                let inner = step(m, *left, schedule);
                let result = sequence_rule(inner.progress, inner.residual, *right);
                Outcome { progress: result.0, residual: result.1, store: inner.store }
            } else {
                let a = if schedule.coin() {
                    *left
                } else {
                    *right
                };
                let b = if schedule.coin() {
                    *right
                } else {
                    *left
                };
                let first = step(m, a, schedule.first());
                if first.progress {
                    let residual = if op == "||"@ {
                        parallel_first_rule(first.residual, b).1
                    } else {
                        first.residual
                    };
                    Outcome { progress: true, residual, store: first.store }
                } else {
                    let second = step(first.store, b, schedule.second());
                    let result = if op == "||"@ {
                        parallel_second_rule(first.residual, second.progress, second.residual)
                    } else {
                        choice_second_rule(first.residual, second.progress, second.residual)
                    };
                    Outcome { progress: result.0, residual: result.1, store: second.store }
                }
            }
        },
    }
}

/// How the attempt at a step ends where the names of the primitives are not
/// known beforehand: with the step, or at a primitive whose name is none of the
/// four.
pub enum Trial {
    Stepped(Outcome),
    Unknown(Seq<char>),
}

/// The name at which a step of `agent` in `m` with the coins of `schedule`
/// comes to a primitive that is none of the four, if it comes to one. A step
/// tries its primitives one after the other and ends at the first that acts, so
/// it comes to an unknown one only where those before it were stuck.
pub open spec fn stops_at(m: Map<Seq<char>, u32>, agent: Agent, schedule: Schedule) -> Option<
    Seq<char>,
>
    decreases agent,
{
    match agent {
        Agent::Empty => None,
        Agent::Prim(name, _) => {
            if is_primitive_name(name) {
                None
            } else {
                Some(name)
            }
        },
        Agent::Op(op, left, right) => {
            if op == ";"@ {
                stops_at(m, *left, schedule)
            } else {
                let a = if schedule.coin() {
                    *left
                } else {
                    *right
                };
                let b = if schedule.coin() {
                    *right
                } else {
                    *left
                };
                match stops_at(m, a, schedule.first()) {
                    Some(name) => Some(name),
                    None => {
                        let first = step(m, a, schedule.first());
                        if first.progress {
                            None
                        } else {
                            stops_at(first.store, b, schedule.second())
                        }
                    },
                }
            }
        },
    }
}

/// The attempt at a step of `agent` in `m` with the coins of `schedule`: the
/// step, unless it comes to a primitive of an unknown name.
pub open spec fn attempt(m: Map<Seq<char>, u32>, agent: Agent, schedule: Schedule) -> Trial {
    match stops_at(m, agent, schedule) {
        Some(name) => Trial::Unknown(name),
        None => Trial::Stepped(step(m, agent, schedule)),
    }
}

/// An attempt at a step of `agent` in `m` can end as `trial` says.
pub open spec fn attempts_to(m: Map<Seq<char>, u32>, agent: Agent, trial: Trial) -> bool {
    exists|schedule: Schedule| #[trigger] attempt(m, agent, schedule) == trial
}

/// A step of a runnable agent comes to no unknown primitive: every attempt at
/// one is a step.
pub proof fn lemma_runnable_never_stops(m: Map<Seq<char>, u32>, agent: Agent, schedule: Schedule)
    requires
        agent.is_runnable(),
    ensures
        stops_at(m, agent, schedule) is None,
        attempt(m, agent, schedule) == Trial::Stepped(step(m, agent, schedule)),
    decreases agent,
{
    match agent {
        Agent::Op(op, left, right) => {
            if op == ";"@ {
                lemma_runnable_never_stops(m, *left, schedule);
            } else {
                let a = if schedule.coin() {
                    *left
                } else {
                    *right
                };
                let b = if schedule.coin() {
                    *right
                } else {
                    *left
                };
                lemma_runnable_never_stops(m, a, schedule.first());
                lemma_runnable_never_stops(
                    step(m, a, schedule.first()).store,
                    b,
                    schedule.second(),
                );
            }
        },
        _ => {},
    }
}

/// The name at which an attempt stops is the name of a primitive of the agent,
/// and none of the four.
pub proof fn lemma_stops_at_own_primitive(m: Map<Seq<char>, u32>, agent: Agent, schedule: Schedule)
    ensures
        stops_at(m, agent, schedule) matches Some(name) ==> agent.mentions(name)
            && !is_primitive_name(name),
    decreases agent,
{
    match agent {
        Agent::Op(op, left, right) => {
            if op == ";"@ {
                lemma_stops_at_own_primitive(m, *left, schedule);
            } else {
                let a = if schedule.coin() {
                    *left
                } else {
                    *right
                };
                let b = if schedule.coin() {
                    *right
                } else {
                    *left
                };
                lemma_stops_at_own_primitive(m, a, schedule.first());
                lemma_stops_at_own_primitive(
                    step(m, a, schedule.first()).store,
                    b,
                    schedule.second(),
                );
            }
        },
        _ => {},
    }
}

/// What an attempt can end as, in the terms of the agent alone: a step by the
/// rules, or the name of one of its primitives that is none of the four. A
/// runnable agent has no such primitive, so an attempt at it ends as a step.
pub proof fn lemma_attempt_ends(m: Map<Seq<char>, u32>, agent: Agent, trial: Trial)
    requires
        attempts_to(m, agent, trial),
    ensures
        trial matches Trial::Stepped(outcome) ==> steps_to(
            m,
            agent,
            outcome.progress,
            outcome.residual,
            outcome.store,
        ),
        trial matches Trial::Unknown(name) ==> agent.mentions(name) && !is_primitive_name(name)
            && !agent.is_runnable(),
{
    let schedule = choose|schedule: Schedule| #[trigger] attempt(m, agent, schedule) == trial;
    lemma_stops_at_own_primitive(m, agent, schedule);
    if agent.is_runnable() {
        lemma_runnable_never_stops(m, agent, schedule);
    }
    if let Trial::Stepped(outcome) = trial {
        assert(step(m, agent, schedule) == outcome);
    }
}

/// The run of `agent` in the store `m`: step after step, each with its own
/// coins from `plan`, until nothing is left to run (`true`) or a step is stuck
/// (`false`). `None` where the plan has too few coins to reach either end.
pub open spec fn run(m: Map<Seq<char>, u32>, agent: Agent, plan: Seq<Schedule>) -> Option<
    (bool, Map<Seq<char>, u32>),
>
    decreases plan.len(),
{
    if agent is Empty {
        Some((true, m))
    } else if plan.len() == 0 {
        None
    } else {
        let outcome = step(m, agent, plan[0]);
        if outcome.progress {
            run(outcome.store, outcome.residual, plan.skip(1))
        } else {
            Some((false, outcome.store))
        }
    }
}

/// `agent` can take a step in `m` that ends as the three other values say.
pub open spec fn steps_to(
    m: Map<Seq<char>, u32>,
    agent: Agent,
    progress: bool,
    residual: Agent,
    store: Map<Seq<char>, u32>,
) -> bool {
    exists|schedule: Schedule| #[trigger]
        step(m, agent, schedule) == (Outcome { progress, residual, store })
}

/// `op` over `a` and `b`, with `a` tried first, can take a step in `m` that
/// ends as the three other values say.
pub open spec fn ordered_steps_to(
    op: Seq<char>,
    m: Map<Seq<char>, u32>,
    a: Agent,
    b: Agent,
    progress: bool,
    residual: Agent,
    store: Map<Seq<char>, u32>,
) -> bool {
    exists|for_a: Schedule, for_b: Schedule| #[trigger]
        ordered_step(op, m, a, b, for_a, for_b) == (Outcome { progress, residual, store })
}

/// `agent` can run in `m` to the end that the two other values give: to
/// nothing left to run, or to a step that is stuck.
pub open spec fn runs_to(
    m: Map<Seq<char>, u32>,
    agent: Agent,
    done: bool,
    store: Map<Seq<char>, u32>,
) -> bool {
    exists|plan: Seq<Schedule>| #[trigger] run(m, agent, plan) == Some((done, store))
}

/// A step of a runnable agent that makes progress leaves the empty agent or a
/// runnable one, with fewer primitives than before. A step that makes none
/// leaves the store as it was and a runnable agent with as many primitives.
pub proof fn lemma_step_shape(m: Map<Seq<char>, u32>, agent: Agent, schedule: Schedule)
    requires
        agent.is_runnable(),
    ensures
        ({
            let outcome = step(m, agent, schedule);
            &&& outcome.residual is Empty || outcome.residual.is_runnable()
            &&& outcome.progress ==> outcome.residual.primitives() < agent.primitives()
            &&& !outcome.progress ==> outcome.store == m && outcome.residual.is_runnable()
                && outcome.residual.primitives() == agent.primitives()
        }),
    decreases agent,
{
    match agent {
        Agent::Empty => {},
        Agent::Prim(name, token) => {},
        Agent::Op(op, left, right) => {
            if op == ";"@ {
                lemma_step_shape(m, *left, schedule);
            } else {
                let a = if schedule.coin() {
                    *left
                } else {
                    *right
                };
                let b = if schedule.coin() {
                    *right
                } else {
                    *left
                };
                lemma_step_shape(m, a, schedule.first());
                let first = step(m, a, schedule.first());
                if !first.progress {
                    lemma_step_shape(first.store, b, schedule.second());
                }
            }
        },
    }
}

/// Whether an agent is stuck does not hang on the coins: where a step makes no
/// progress with some coins, it makes none with any others, for then none of
/// the primitives that a step could try can act.
pub proof fn lemma_stuck_with_all_coins(
    m: Map<Seq<char>, u32>,
    agent: Agent,
    schedule: Schedule,
    other: Schedule,
)
    requires
        agent.is_runnable(),
        !step(m, agent, schedule).progress,
    ensures
        !step(m, agent, other).progress,
    decreases agent,
{
    match agent {
        Agent::Op(op, left, right) => {
            if op == ";"@ {
                lemma_stuck_with_all_coins(m, *left, schedule, other);
            } else {
                // With the first coins both operands were tried and both were
                // stuck, in a store that no stuck step changes.
                let a = if schedule.coin() {
                    *left
                } else {
                    *right
                };
                let b = if schedule.coin() {
                    *right
                } else {
                    *left
                };
                lemma_step_shape(m, a, schedule.first());
                let a_now = if other.coin() {
                    *left
                } else {
                    *right
                };
                let b_now = if other.coin() {
                    *right
                } else {
                    *left
                };
                if other.coin() == schedule.coin() {
                    lemma_stuck_with_all_coins(m, a, schedule.first(), other.first());
                    lemma_step_shape(m, a_now, other.first());
                    lemma_stuck_with_all_coins(m, b, schedule.second(), other.second());
                } else {
                    lemma_stuck_with_all_coins(m, b, schedule.second(), other.first());
                    lemma_step_shape(m, a_now, other.first());
                    lemma_stuck_with_all_coins(m, a, schedule.first(), other.second());
                }
            }
        },
        _ => {},
    }
}

/// Two agents are the same but for the order in which a parallel composition
/// or a choice holds its operands.
pub open spec fn same_but_for_order(a: Agent, b: Agent) -> bool
    decreases a,
{
    match (a, b) {
        (Agent::Empty, Agent::Empty) => true,
        (Agent::Prim(name, token), Agent::Prim(other_name, other_token)) => name == other_name
            && token == other_token,
        (Agent::Op(op, left, right), Agent::Op(other_op, other_left, other_right)) => {
            &&& op == other_op
            &&& {
                ||| same_but_for_order(*left, *other_left) && same_but_for_order(
                    *right,
                    *other_right,
                )
                ||| op != ";"@ && same_but_for_order(*left, *other_right) && same_but_for_order(
                    *right,
                    *other_left,
                )
            }
        },
        _ => false,
    }
}

/// A stuck step leaves the agent that it found, but for the order of the
/// operands: each parallel composition and each choice whose operands were both
/// tried holds them in the order in which they were tried.
pub proof fn lemma_stuck_leaves_agent(m: Map<Seq<char>, u32>, agent: Agent, schedule: Schedule)
    requires
        agent.is_runnable(),
        !step(m, agent, schedule).progress,
    ensures
        same_but_for_order(agent, step(m, agent, schedule).residual),
    decreases agent,
{
    match agent {
        Agent::Op(op, left, right) => {
            if op == ";"@ {
                lemma_stuck_leaves_agent(m, *left, schedule);
                lemma_same_agent(*right);
            } else {
                let a = if schedule.coin() {
                    *left
                } else {
                    *right
                };
                let b = if schedule.coin() {
                    *right
                } else {
                    *left
                };
                lemma_stuck_leaves_agent(m, a, schedule.first());
                lemma_stuck_leaves_agent(
                    step(m, a, schedule.first()).store,
                    b,
                    schedule.second(),
                );
            }
        },
        _ => {},
    }
}

/// An agent is the same as itself.
pub proof fn lemma_same_agent(agent: Agent)
    ensures
        same_but_for_order(agent, agent),
    decreases agent,
{
    match agent {
        Agent::Op(_, left, right) => {
            lemma_same_agent(*left);
            lemma_same_agent(*right);
        },
        _ => {},
    }
}

/// A runnable agent holds at least one primitive.
pub proof fn lemma_runnable_has_primitives(agent: Agent)
    requires
        agent.is_runnable(),
    ensures
        agent.primitives() >= 1,
    decreases agent,
{
    match agent {
        Agent::Op(_, left, right) => {
            lemma_runnable_has_primitives(*left);
        },
        _ => {},
    }
}

/// The empty agent has run to its end before any step: the run answers `true`
/// and leaves the store as it was, whatever the plan.
pub proof fn lemma_run_of_empty(m: Map<Seq<char>, u32>, plan: Seq<Schedule>)
    ensures
        run(m, Agent::Empty, plan) == Some((true, m)),
{
}

} // verus!
