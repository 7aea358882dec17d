//! One reduction step as a machine that can be stopped and taken up again.
//!
//! A client of a blackboard has to wait for each answer, and a step may need
//! several. The machine keeps the place where the step stands: it asks for a
//! coin or for a primitive to be run, takes the coin or the answer, and goes on
//! from there until the step is done.

use crate::chance::toss;
use crate::model::action::Action;
use crate::model::data::{is_primitive_name, lemma_names_and_operators, Agent, Expr};
use crate::model::error::CLIError;
use crate::rules::{
    choice_second_outcome, parallel_first_outcome, parallel_second_outcome, primitive_outcome,
    sequence_outcome,
};
use crate::semantics::{
    choice_second_rule, parallel_first_rule, parallel_second_rule, primitive_rule, sequence_rule,
};
use crate::text::same_text;
use vstd::prelude::*;

verus! {

/// An operator that the step has entered and not yet left.
pub enum Frame {
    /// The step is in the left operand of `;`, and this is the right one.
    Sequence(Expr),
    /// The step is in the operand tried first of this operator, and this is the
    /// other operand.
    First(String, Expr),
    /// The step is in the operand tried second of this operator, and this is
    /// what the operand tried first, which was stuck, has left.
    Second(String, Expr),
}

/// A [`Frame`] as a mathematical value.
pub enum FrameView {
    Sequence(Agent),
    First(Seq<char>, Agent),
    Second(Seq<char>, Agent),
}

impl View for Frame {
    type V = FrameView;

    open spec fn view(&self) -> FrameView {
        match self {
            Frame::Sequence(right) => FrameView::Sequence(right@),
            Frame::First(op, other) => FrameView::First(op@, other@),
            Frame::Second(op, first) => FrameView::Second(op@, first@),
        }
    }
}

/// What the machine asks of whoever drives it.
#[derive(Debug, PartialEq)]
pub enum Request {
    /// Toss a coin and hand it in with `coin`, or let `toss_coin` do both.
    Toss,
    /// Run this primitive on this token and hand the answer in with `answer`.
    Exec { primitive: String, coord_data: String },
    /// The step is done: whether it made progress, and the agent that is left.
    Done { progress: bool, residual: Expr },
}

/// A [`Request`] as a mathematical value.
pub enum RequestView {
    Toss,
    Exec { primitive: Seq<char>, coord_data: Seq<char> },
    Done { progress: bool, residual: Agent },
}

impl View for Request {
    type V = RequestView;

    open spec fn view(&self) -> RequestView {
        match self {
            Request::Toss => RequestView::Toss,
            Request::Exec { primitive, coord_data } => RequestView::Exec {
                primitive: primitive@,
                coord_data: coord_data@,
            },
            Request::Done { progress, residual } => RequestView::Done {
                progress: *progress,
                residual: residual@,
            },
        }
    }
}

/// What a run does between two steps.
#[derive(Debug, PartialEq)]
pub enum Continuation {
    /// The run is over: `true` where nothing is left to run, `false` where a
    /// step was stuck.
    Ended(bool),
    /// The run goes on with a step of this agent.
    Step(Expr),
}

/// A [`Continuation`] as a mathematical value.
pub enum ContinuationView {
    Ended(bool),
    Step(Agent),
}

impl View for Continuation {
    type V = ContinuationView;

    open spec fn view(&self) -> ContinuationView {
        match self {
            Continuation::Ended(done) => ContinuationView::Ended(*done),
            Continuation::Step(agent) => ContinuationView::Step(agent@),
        }
    }
}

/// How a run goes on after a step that made progress or not and left
/// `residual`: a stuck step ends it as a failure, a step that left nothing ends
/// it as a success, and any other is followed by a step of what it left.
pub open spec fn continuation(progress: bool, residual: Agent) -> ContinuationView {
    if !progress {
        ContinuationView::Ended(false)
    } else if residual is Empty {
        ContinuationView::Ended(true)
    } else {
        ContinuationView::Step(residual)
    }
}

/// How the run of `agent` starts: the empty agent has run to its end before
/// any step.
pub fn begin_run(agent: Expr) -> (res: Continuation)
    ensures
        res@ == continuation(true, agent@),
{
    match agent {
        Expr::BachtAstEmptyAgent() => Continuation::Ended(true),
        other => Continuation::Step(other),
    }
}

/// How a run goes on after a step that made progress or not and left
/// `residual`.
pub fn after_step(progress: bool, residual: Expr) -> (res: Continuation)
    ensures
        res@ == continuation(progress, residual@),
{
    if !progress {
        Continuation::Ended(false)
    } else {
        begin_run(residual)
    }
}

/// The machine as a mathematical value: the operators entered, the outermost
/// first, and the agent at which the step stands. It stands at a primitive
/// while it waits for an answer, at a parallel composition or a choice while
/// it waits for a coin, and at the empty agent between two steps.
pub struct Machine {
    pub frames: Seq<FrameView>,
    pub focus: Agent,
}

/// What the machine asks for when it stands at `focus`.
pub open spec fn request_at(focus: Agent) -> RequestView {
    match focus {
        Agent::Prim(name, token) => RequestView::Exec { primitive: name, coord_data: token },
        Agent::Op(_, _, _) => RequestView::Toss,
        Agent::Empty => RequestView::Done { progress: false, residual: Agent::Empty },
    }
}

/// Going down from `focus`: through the left operands of `;`, as far as the
/// first primitive, parallel composition or choice.
pub open spec fn descend(frames: Seq<FrameView>, focus: Agent) -> Machine
    decreases focus,
{
    match focus {
        Agent::Op(op, left, right) => {
            if op == ";"@ {
                descend(frames.push(FrameView::Sequence(*right)), *left)
            } else {
                Machine { frames, focus }
            }
        },
        _ => Machine { frames, focus },
    }
}

/// Going up with the step of the agent below: each operator entered turns it
/// into its own step by its rule. Where the operand tried first of an operator
/// is stuck, the way goes down again into the other operand. Above the
/// outermost operator the step is done.
pub open spec fn unwind(frames: Seq<FrameView>, progress: bool, residual: Agent) -> (
    Machine,
    RequestView,
)
    decreases frames.len(),
{
    if frames.len() == 0 {
        (
            Machine { frames, focus: Agent::Empty },
            RequestView::Done { progress, residual },
        )
    } else {
        let outer = frames.drop_last();
        match frames.last() {
            FrameView::Sequence(right) => {
                let result = sequence_rule(progress, residual, right);
                unwind(outer, result.0, result.1)
            },
            FrameView::First(op, other) => {
                if progress {
                    let left = if op == "||"@ {
                        parallel_first_rule(residual, other).1
                    } else {
                        residual
                    };
                    unwind(outer, true, left)
                } else {
                    let below = descend(outer.push(FrameView::Second(op, residual)), other);
                    (below, request_at(below.focus))
                }
            },
            FrameView::Second(op, first) => {
                let result = if op == "||"@ {
                    parallel_second_rule(first, progress, residual)
                } else {
                    choice_second_rule(first, progress, residual)
                };
                unwind(outer, result.0, result.1)
            },
        }
    }
}

/// The machine after the coin it asked for: `true` tries the left operand
/// first.
pub open spec fn after_coin(machine: Machine, coin: bool) -> Machine {
    match machine.focus {
        Agent::Op(op, left, right) => {
            let a = if coin {
                *left
            } else {
                *right
            };
            let b = if coin {
                *right
            } else {
                *left
            };
            descend(machine.frames.push(FrameView::First(op, b)), a)
        },
        _ => machine,
    }
}

/// The machine after the answer it asked for, and what it asks next.
pub open spec fn after_answer(machine: Machine, answer: bool) -> (Machine, RequestView) {
    match machine.focus {
        Agent::Prim(name, token) => {
            let result = primitive_rule(name, token, answer);
            unwind(machine.frames, result.0, result.1)
        },
        _ => (machine, request_at(machine.focus)),
    }
}

/// Going down from an agent that can be taken apart ends at a primitive or at
/// an operator that tosses a coin.
pub proof fn lemma_descend_stops(frames: Seq<FrameView>, focus: Agent)
    requires
        focus.is_reducible(),
    ensures
        !(descend(frames, focus).focus is Empty),
    decreases focus,
{
    match focus {
        Agent::Op(op, left, right) => {
            if op == ";"@ {
                lemma_descend_stops(frames.push(FrameView::Sequence(*right)), *left);
            }
        },
        _ => {},
    }
}

/// Going up ends the step, and the machine then stands between two steps, or
/// it ends at a place where the machine asks for what that place needs.
pub proof fn lemma_unwind_request(frames: Seq<FrameView>, progress: bool, residual: Agent)
    requires
        frames_reducible(frames),
    ensures
        ({
            let (machine, request) = unwind(frames, progress, residual);
            if request is Done {
                machine.focus is Empty && machine.frames.len() == 0
            } else {
                request == request_at(machine.focus)
            }
        }),
    decreases frames.len(),
{
    if frames.len() > 0 {
        let outer = frames.drop_last();
        match frames.last() {
            FrameView::Sequence(right) => {
                let result = sequence_rule(progress, residual, right);
                lemma_unwind_request(outer, result.0, result.1);
            },
            FrameView::First(op, other) => {
                if progress {
                    let left = if op == "||"@ {
                        parallel_first_rule(residual, other).1
                    } else {
                        residual
                    };
                    lemma_unwind_request(outer, true, left);
                } else {
                    lemma_descend_stops(outer.push(FrameView::Second(op, residual)), other);
                }
            },
            FrameView::Second(op, first) => {
                let result = if op == "||"@ {
                    parallel_second_rule(first, progress, residual)
                } else {
                    choice_second_rule(first, progress, residual)
                };
                lemma_unwind_request(outer, result.0, result.1);
            },
        }
    }
}

/// What an operator entered still stands for in the work of a step.
pub open spec fn frame_weight(frame: FrameView) -> nat {
    match frame {
        FrameView::First(_, other) => 2 * other.nodes() + 1,
        _ => 1,
    }
}

/// What the operators entered still stand for in the work of a step.
pub open spec fn frames_weight(frames: Seq<FrameView>) -> nat
    decreases frames.len(),
{
    if frames.len() == 0 {
        0
    } else {
        frames_weight(frames.drop_last()) + frame_weight(frames.last())
    }
}

/// A bound on the moves that the machine can still make in this step: every
/// coin and every answer after which the step goes on makes it smaller.
pub open spec fn weight(machine: Machine) -> nat {
    2 * machine.focus.nodes() + frames_weight(machine.frames)
}

/// One more operator adds its weight.
pub proof fn lemma_push_weight(frames: Seq<FrameView>, frame: FrameView)
    ensures
        frames_weight(frames.push(frame)) == frames_weight(frames) + frame_weight(frame),
{
    assert(frames.push(frame).drop_last() =~= frames);
}

/// Going down adds no weight.
pub proof fn lemma_descend_weight(frames: Seq<FrameView>, focus: Agent)
    ensures
        weight(descend(frames, focus)) <= 2 * focus.nodes() + frames_weight(frames),
    decreases focus,
{
    match focus {
        Agent::Op(op, left, right) => {
            if op == ";"@ {
                lemma_push_weight(frames, FrameView::Sequence(*right));
                lemma_descend_weight(frames.push(FrameView::Sequence(*right)), *left);
                right.lemma_nodes_positive();
            }
        },
        _ => {},
    }
}

/// A coin takes weight off.
pub proof fn lemma_coin_weight(machine: Machine, coin: bool)
    requires
        machine.focus is Op,
    ensures
        weight(after_coin(machine, coin)) < weight(machine),
{
    match machine.focus {
        Agent::Op(op, left, right) => {
            let a = if coin {
                *left
            } else {
                *right
            };
            let b = if coin {
                *right
            } else {
                *left
            };
            lemma_push_weight(machine.frames, FrameView::First(op, b));
            lemma_descend_weight(machine.frames.push(FrameView::First(op, b)), a);
        },
        _ => {},
    }
}

/// Going up takes weight off, where it does not end the step.
pub proof fn lemma_unwind_weight(frames: Seq<FrameView>, progress: bool, residual: Agent)
    ensures
        !(unwind(frames, progress, residual).1 is Done) ==> weight(
            unwind(frames, progress, residual).0,
        ) < frames_weight(frames) + 2,
    decreases frames.len(),
{
    if frames.len() > 0 {
        let outer = frames.drop_last();
        match frames.last() {
            FrameView::Sequence(right) => {
                let result = sequence_rule(progress, residual, right);
                lemma_unwind_weight(outer, result.0, result.1);
            },
            FrameView::First(op, other) => {
                if progress {
                    let left = if op == "||"@ {
                        parallel_first_rule(residual, other).1
                    } else {
                        residual
                    };
                    lemma_unwind_weight(outer, true, left);
                } else {
                    lemma_push_weight(outer, FrameView::Second(op, residual));
                    lemma_descend_weight(outer.push(FrameView::Second(op, residual)), other);
                }
            },
            FrameView::Second(op, first) => {
                let result = if op == "||"@ {
                    parallel_second_rule(first, progress, residual)
                } else {
                    choice_second_rule(first, progress, residual)
                };
                lemma_unwind_weight(outer, result.0, result.1);
            },
        }
    }
}

/// The views of the frames of a list.
pub open spec fn views_of(frames: Seq<Frame>) -> Seq<FrameView> {
    frames.map_values(|frame: Frame| frame@)
}

/// The frames hold agents that can be taken apart, under operators that toss
/// a coin.
pub open spec fn frames_reducible(frames: Seq<FrameView>) -> bool {
    forall|i: int|
        0 <= i < frames.len() ==> match #[trigger] frames[i] {
            FrameView::Sequence(right) => right.is_reducible(),
            FrameView::First(op, other) => (op == "||"@ || op == "+"@) && other.is_reducible(),
            FrameView::Second(op, first) => (op == "||"@ || op == "+"@) && first.is_reducible(),
        }
}

/// The interpreter of one agent against a blackboard that it can only ask.
pub struct Simulator {
    frames: Vec<Frame>,
    focus: Expr,
}

impl View for Simulator {
    type V = Machine;

    closed spec fn view(&self) -> Machine {
        Machine { frames: views_of(self.frames@), focus: self.focus@ }
    }
}

impl Simulator {
    /// The machine is sound: it stands between two steps or at an agent that
    /// can be taken apart, and so can what it holds of the agent above.
    pub open spec fn wf(&self) -> bool {
        &&& frames_reducible(self@.frames)
        &&& self@.focus is Empty ==> self@.frames.len() == 0
        &&& !(self@.focus is Empty) ==> self@.focus.is_reducible()
        &&& self@.focus matches Agent::Op(op, _, _) ==> op != ";"@
    }

    /// A machine between two steps.
    pub fn new() -> (res: Self)
        ensures
            res@ == (Machine { frames: Seq::empty(), focus: Agent::Empty }),
            res.wf(),
    {
        let res = Simulator { frames: Vec::new(), focus: Expr::BachtAstEmptyAgent() };
        assert(views_of(res.frames@) =~= Seq::<FrameView>::empty());
        res
    }

    /// The request to the blackboard that runs the primitive `primitive` on
    /// `coord_data`, or the error that names `primitive` where it is none of
    /// the four.
    pub fn exec_primitive(primitive: &str, coord_data: &str) -> (res: Result<Action, CLIError>)
        ensures
            match res {
                Ok(Action::Tell(token)) => primitive@ == "tell"@ && token@ == coord_data@,
                Ok(Action::Ask(token)) => primitive@ == "ask"@ && token@ == coord_data@,
                Ok(Action::Get(token)) => primitive@ == "get"@ && token@ == coord_data@,
                Ok(Action::Nask(token)) => primitive@ == "nask"@ && token@ == coord_data@,
                Err(CLIError::UnknownPrimitive(name)) => !is_primitive_name(primitive@) && name@
                    == primitive@,
                Err(_) => false,
            },
    {
        if same_text(primitive, "tell") {
            Ok(Action::Tell(coord_data.to_owned()))
        } else if same_text(primitive, "ask") {
            Ok(Action::Ask(coord_data.to_owned()))
        } else if same_text(primitive, "get") {
            Ok(Action::Get(coord_data.to_owned()))
        } else if same_text(primitive, "nask") {
            Ok(Action::Nask(coord_data.to_owned()))
        } else {
            Err(CLIError::UnknownPrimitive(primitive.to_owned()))
        }
    }

    /// What the machine asks for where it stands.
    fn request(&self) -> (res: Request)
        requires
            !(self@.focus is Empty),
        ensures
            res@ == request_at(self@.focus),
    {
        match &self.focus {
            Expr::BachtAstPrimitive(name, token) => Request::Exec {
                primitive: name.clone(),
                coord_data: token.clone(),
            },
            _ => Request::Toss,
        }
    }

    /// Goes down from `agent` to the place where the step needs a coin or an
    /// answer.
    fn go_down(&mut self, agent: Expr)
        requires
            agent@.is_reducible(),
            frames_reducible(old(self)@.frames),
        ensures
            final(self)@ == descend(old(self)@.frames, agent@),
            final(self).wf(),
            !(final(self)@.focus is Empty),
    {
        let mut current = agent;
        loop
            invariant
                current@.is_reducible(),
                frames_reducible(views_of(self.frames@)),
                descend(views_of(self.frames@), current@) == descend(old(self)@.frames, agent@),
            decreases current@.nodes(),
        {
            match current {
                Expr::BachtAstAgent(op, left, right) => {
                    if same_text(op.as_str(), ";") {
                        proof {
                            let before = views_of(self.frames@);
                            let pushed = self.frames@.push(Frame::Sequence(*right));
                            assert(views_of(pushed) =~= before.push(FrameView::Sequence(right@)));
                        }
                        self.frames.push(Frame::Sequence(*right));
                        current = *left;
                    } else {
                        self.focus = Expr::BachtAstAgent(op, left, right);
                        return ;
                    }
                },
                other => {
                    self.focus = other;
                    return ;
                },
            }
        }
    }

    /// Goes up from the step of the agent below, which made progress or not
    /// and left `residual`.
    fn go_up(&mut self, progress: bool, residual: Expr) -> (res: Request)
        requires
            frames_reducible(old(self)@.frames),
            residual@ is Empty || residual@.is_reducible(),
            !progress ==> residual@.is_reducible(),
        ensures
            (final(self)@, res@) == unwind(old(self)@.frames, progress, residual@),
            final(self).wf(),
    {
        let mut made = progress;
        let mut left = residual;
        proof {
            lemma_names_and_operators();
        }
        loop
            invariant
                frames_reducible(views_of(self.frames@)),
                left@ is Empty || left@.is_reducible(),
                !made ==> left@.is_reducible(),
                unwind(views_of(self.frames@), made, left@) == unwind(
                    old(self)@.frames,
                    progress,
                    residual@,
                ),
                ";"@ != "||"@,
                ";"@ != "+"@,
                "||"@ != "+"@,
            decreases self.frames.len(),
        {
            let ghost before = views_of(self.frames@);
            match self.frames.pop() {
                None => {
                    self.focus = Expr::BachtAstEmptyAgent();
                    assert(views_of(self.frames@) =~= before);
                    assert(before.len() == 0);
                    return Request::Done { progress: made, residual: left };
                },
                Some(frame) => {
                    assert(views_of(self.frames@) =~= before.drop_last());
                    assert(before.last() == frame@);
                    match frame {
                        Frame::Sequence(right) => {
                            let result = sequence_outcome(made, left, right);
                            made = result.0;
                            left = result.1;
                        },
                        Frame::First(op, other) => {
                            if made {
                                if same_text(op.as_str(), "||") {
                                    left = parallel_first_outcome(left, other).1;
                                }
                            } else {
                                proof {
                                    let outer = views_of(self.frames@);
                                    let pushed = self.frames@.push(Frame::Second(op, left));
                                    assert(views_of(pushed) =~= outer.push(
                                        FrameView::Second(op@, left@),
                                    ));
                                }
                                self.frames.push(Frame::Second(op, left));
                                self.go_down(other);
                                return self.request();
                            }
                        },
                        Frame::Second(op, first) => {
                            let result = if same_text(op.as_str(), "||") {
                                parallel_second_outcome(first, made, left)
                            } else {
                                choice_second_outcome(first, made, left)
                            };
                            made = result.0;
                            left = result.1;
                        },
                    }
                },
            }
        }
    }

    /// Starts a step of `agent` and gives what the step needs first.
    pub fn run_one(&mut self, agent: Expr) -> (res: Request)
        requires
            old(self).wf(),
            old(self)@.focus is Empty,
            agent@.is_reducible(),
        ensures
            final(self)@ == descend(Seq::empty(), agent@),
            res@ == request_at(final(self)@.focus),
            !(res is Done),
            final(self).wf(),
    {
        assert(self@.frames =~= Seq::<FrameView>::empty());
        self.go_down(agent);
        self.request()
    }

    /// Takes the coin that the machine asked for and gives what the step needs
    /// next.
    pub fn coin(&mut self, coin: bool) -> (res: Request)
        requires
            old(self).wf(),
            old(self)@.focus is Op,
        ensures
            final(self)@ == after_coin(old(self)@, coin),
            res@ == request_at(final(self)@.focus),
            !(res is Done),
            final(self).wf(),
            weight(final(self)@) < weight(old(self)@),
    {
        proof {
            lemma_coin_weight(self@, coin);
        }
        let mut focus = Expr::BachtAstEmptyAgent();
        core::mem::swap(&mut self.focus, &mut focus);
        match focus {
            Expr::BachtAstAgent(op, left, right) => {
                let (a, b) = if coin {
                    (*left, *right)
                } else {
                    (*right, *left)
                };
                proof {
                    let before = views_of(self.frames@);
                    let pushed = self.frames@.push(Frame::First(op, b));
                    assert(views_of(pushed) =~= before.push(FrameView::First(op@, b@)));
                }
                self.frames.push(Frame::First(op, b));
                self.go_down(a);
            },
            _ => {},
        }
        self.request()
    }

    /// Tosses the coin that the machine asked for, takes it and gives what the
    /// step needs next.
    pub fn toss_coin(&mut self) -> (res: Request)
        requires
            old(self).wf(),
            old(self)@.focus is Op,
        ensures
            final(self)@ == after_coin(old(self)@, true) || final(self)@ == after_coin(
                old(self)@,
                false,
            ),
            res@ == request_at(final(self)@.focus),
            !(res is Done),
            final(self).wf(),
            weight(final(self)@) < weight(old(self)@),
    {
        let coin = toss();
        self.coin(coin)
    }

    /// Takes the blackboard's answer to the primitive that the machine asked
    /// for and gives what the step needs next, or what the step came to.
    pub fn answer(&mut self, answer: bool) -> (res: Request)
        requires
            old(self).wf(),
            old(self)@.focus is Prim,
        ensures
            (final(self)@, res@) == after_answer(old(self)@, answer),
            final(self).wf(),
            res is Done ==> final(self)@.focus is Empty,
            !(res is Done) ==> res@ == request_at(final(self)@.focus),
            !(res is Done) ==> weight(final(self)@) < weight(old(self)@),
    {
        proof {
            let name = self@.focus->Prim_0;
            let token = self@.focus->Prim_1;
            let result = primitive_rule(name, token, answer);
            lemma_unwind_weight(self@.frames, result.0, result.1);
            lemma_unwind_request(self@.frames, result.0, result.1);
        }
        let mut focus = Expr::BachtAstEmptyAgent();
        core::mem::swap(&mut self.focus, &mut focus);
        match focus {
            Expr::BachtAstPrimitive(name, token) => {
                let result = primitive_outcome(name, token, answer);
                self.go_up(result.0, result.1)
            },
            _ => Request::Toss,
        }
    }

    /// Gives the step up where it stands: the machine is between two steps
    /// again, and holds nothing of the agent.
    pub fn abandon(&mut self)
        ensures
            final(self)@ == (Machine { frames: Seq::empty(), focus: Agent::Empty }),
            final(self).wf(),
    {
        self.frames = Vec::new();
        self.focus = Expr::BachtAstEmptyAgent();
        assert(views_of(self.frames@) =~= Seq::<FrameView>::empty());
    }

    /// Takes what came back from the blackboard for the primitive that the
    /// machine asked for. An answer is taken as `answer` takes it. An error
    /// ends the step and the run: it is handed on as it came, and the machine
    /// gives the step up.
    pub fn reply(&mut self, received: Result<bool, CLIError>) -> (res: Result<Request, CLIError>)
        requires
            old(self).wf(),
            old(self)@.focus is Prim,
        ensures
            final(self).wf(),
            match received {
                Ok(answer) => {
                    &&& res matches Ok(request)
                    &&& (final(self)@, request@) == after_answer(old(self)@, answer)
                    &&& request is Done ==> final(self)@.focus is Empty
                    &&& !(request is Done) ==> request@ == request_at(final(self)@.focus)
                    &&& !(request is Done) ==> weight(final(self)@) < weight(old(self)@)
                },
                Err(error) => {
                    &&& res == Err::<Request, CLIError>(error)
                    &&& final(self)@ == (Machine { frames: Seq::empty(), focus: Agent::Empty })
                },
            },
    {
        match received {
            Ok(answer) => Ok(self.answer(answer)),
            Err(error) => {
                self.abandon();
                Err(error)
            },
        }
    }
}

} // verus!
