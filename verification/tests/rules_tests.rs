use bacht::model::data::Expr;
use bacht::rules::{
    choice_second_outcome, parallel_first_outcome, parallel_second_outcome, primitive_outcome,
    sequence_outcome,
};

fn prim(name: &str, token: &str) -> Expr {
    Expr::BachtAstPrimitive(name.into(), token.into())
}

fn op(operator: &str, left: Expr, right: Expr) -> Expr {
    Expr::BachtAstAgent(operator.into(), Box::new(left), Box::new(right))
}

fn empty() -> Expr {
    Expr::BachtAstEmptyAgent()
}

#[test]
fn a_primitive_that_acted_leaves_nothing() {
    assert_eq!(primitive_outcome("tell".into(), "a".into(), true), (true, empty()));
    assert_eq!(primitive_outcome("get".into(), "a".into(), false), (false, prim("get", "a")));
}

#[test]
fn a_sequence_moves_with_its_left_operand() {
    let right = || prim("tell", "r");
    assert_eq!(
        sequence_outcome(false, prim("ask", "l"), right()),
        (false, op(";", prim("ask", "l"), right()))
    );
    assert_eq!(sequence_outcome(true, empty(), right()), (true, right()));
    assert_eq!(
        sequence_outcome(true, prim("get", "l"), right()),
        (true, op(";", prim("get", "l"), right()))
    );
}

#[test]
fn a_parallel_composition_keeps_both_operands_as_long_as_they_last() {
    let other = || prim("ask", "o");
    assert_eq!(parallel_first_outcome(empty(), other()), (true, other()));
    assert_eq!(
        parallel_first_outcome(prim("get", "c"), other()),
        (true, op("||", prim("get", "c"), other()))
    );
    let stuck = || prim("ask", "s");
    assert_eq!(
        parallel_second_outcome(stuck(), false, prim("ask", "t")),
        (false, op("||", stuck(), prim("ask", "t")))
    );
    assert_eq!(parallel_second_outcome(stuck(), true, empty()), (true, stuck()));
    assert_eq!(
        parallel_second_outcome(stuck(), true, prim("get", "c")),
        (true, op("||", stuck(), prim("get", "c")))
    );
}

#[test]
fn a_choice_keeps_only_the_operand_that_moved() {
    let stuck = || prim("ask", "s");
    assert_eq!(
        choice_second_outcome(stuck(), false, prim("get", "t")),
        (false, op("+", stuck(), prim("get", "t")))
    );
    assert_eq!(choice_second_outcome(stuck(), true, empty()), (true, empty()));
    assert_eq!(choice_second_outcome(stuck(), true, prim("get", "c")), (true, prim("get", "c")));
}
