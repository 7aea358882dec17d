//! The reduction rules of the operators on syntax trees: how the step of an
//! operand becomes the step of the composed agent.

use crate::model::data::Expr;
use crate::semantics::{
    choice_second_rule, parallel_first_rule, parallel_second_rule, primitive_rule, sequence_rule,
};
use vstd::prelude::*;

verus! {

/// The step of a primitive from the blackboard's answer: nothing is left where
/// it answered `true`, and the primitive stays where it answered `false`.
pub fn primitive_outcome(prim: String, token: String, answer: bool) -> (res: (bool, Expr))
    ensures
        (res.0, res.1@) == primitive_rule(prim@, token@, answer),
{
    if answer {
        (true, Expr::BachtAstEmptyAgent())
    } else {
        (false, Expr::BachtAstPrimitive(prim, token))
    }
}

/// The step of `ag_i ; ag_ii` from the step of `ag_i`, which left `ag_cont`.
pub fn sequence_outcome(progress: bool, ag_cont: Expr, ag_ii: Expr) -> (res: (bool, Expr))
    ensures
        (res.0, res.1@) == sequence_rule(progress, ag_cont@, ag_ii@),
{
    if !progress {
        (false, Expr::BachtAstAgent(";".to_owned(), Box::new(ag_cont), Box::new(ag_ii)))
    } else {
        match ag_cont {
            Expr::BachtAstEmptyAgent() => (true, ag_ii),
            _ => (true, Expr::BachtAstAgent(";".to_owned(), Box::new(ag_cont), Box::new(ag_ii))),
        }
    }
}

/// The step of a parallel composition whose operand tried first made progress
/// and left `ag_cont`, beside the other operand `ag_ii`.
pub fn parallel_first_outcome(ag_cont: Expr, ag_ii: Expr) -> (res: (bool, Expr))
    ensures
        (res.0, res.1@) == parallel_first_rule(ag_cont@, ag_ii@),
{
    match ag_cont {
        Expr::BachtAstEmptyAgent() => (true, ag_ii),
        _ => (true, Expr::BachtAstAgent("||".to_owned(), Box::new(ag_cont), Box::new(ag_ii))),
    }
}

/// The step of a parallel composition whose operand tried first is stuck as
/// `ag_i`, from the step of the other operand, which left `ag_cont`.
pub fn parallel_second_outcome(ag_i: Expr, progress: bool, ag_cont: Expr) -> (res: (bool, Expr))
    ensures
        (res.0, res.1@) == parallel_second_rule(ag_i@, progress, ag_cont@),
{
    if !progress {
        (false, Expr::BachtAstAgent("||".to_owned(), Box::new(ag_i), Box::new(ag_cont)))
    } else {
        match ag_cont {
            Expr::BachtAstEmptyAgent() => (true, ag_i),
            _ => (true, Expr::BachtAstAgent("||".to_owned(), Box::new(ag_i), Box::new(ag_cont))),
        }
    }
}

/// The step of a choice whose operand tried first is stuck as `ag_i`, from the
/// step of the other operand, which left `ag_cont`.
pub fn choice_second_outcome(ag_i: Expr, progress: bool, ag_cont: Expr) -> (res: (bool, Expr))
    ensures
        (res.0, res.1@) == choice_second_rule(ag_i@, progress, ag_cont@),
{
    if !progress {
        (false, Expr::BachtAstAgent("+".to_owned(), Box::new(ag_i), Box::new(ag_cont)))
    } else {
        (true, ag_cont)
    }
}

} // verus!
