use bacht::bacht::bacht_parser::{parse, parse_agent, primitive, token};
use bacht::model::data::Expr;
use bacht::model::error::ParseErrorKind::{
    BadToken, Empty, Trailing, UnbalancedParen, UnknownPrimitive,
};
use bacht::model::error::{ParseError, ParseErrorKind};

fn prim(name: &str, token: &str) -> Expr {
    Expr::BachtAstPrimitive(name.into(), token.into())
}

fn op(operator: &str, left: Expr, right: Expr) -> Expr {
    Expr::BachtAstAgent(operator.into(), Box::new(left), Box::new(right))
}

fn fails(kind: ParseErrorKind, position: usize) -> Result<Expr, ParseError> {
    Err(ParseError { kind, position })
}

// Primitive section

#[test]
fn the_parser_should_be_able_to_parse_a_tell_primitive() {
    let res = primitive("tell(token)");
    assert_eq!(res, Ok(("", prim("tell", "token"))));
}

#[test]
fn the_parser_should_be_able_to_parse_an_ask_primitive() {
    let res = primitive("ask(token)");
    assert_eq!(res, Ok(("", prim("ask", "token"))));
}

#[test]
fn the_parser_should_be_able_to_parse_a_get_primitive() {
    let res = primitive("get(token)");
    assert_eq!(res, Ok(("", prim("get", "token"))));
}

#[test]
fn the_parser_should_be_able_to_parse_a_nask_primitive() {
    let res = primitive("nask(token)");
    assert_eq!(res, Ok(("", prim("nask", "token"))));
}

#[test]
fn the_parser_should_refuse_hallucinate_primitives() {
    let res = primitive("non(token)");
    assert!(matches!(res, Err(_)));
    assert_eq!(res, Err(ParseError { kind: UnknownPrimitive, position: 0 }));
}

// Token section

#[test]
fn the_parser_should_be_able_to_parse_a_token() {
    let res = token("token");
    assert_eq!(res, Ok(("", "token")));
}

#[test]
fn the_parser_should_be_able_to_parse_a_token_with_capital_character_and_number() {
    let res = token("tOkEN12E");
    assert_eq!(res, Ok(("", "tOkEN12E")));
}

#[test]
fn the_parser_should_refuse_token_with_special_character() {
    let res = primitive("tell(tOkEN12E@)");
    assert!(matches!(res, Err(_)));
    assert_eq!(res, Err(ParseError { kind: UnbalancedParen, position: 13 }));
}

#[test]
fn the_parser_should_refuse_token_with_first_character_as_number() {
    let res = token("7oken");
    assert_eq!(res, Err(ParseError { kind: BadToken, position: 0 }));
}

#[test]
fn the_parser_should_refuse_token_with_first_character_as_capitals() {
    let res = token("Token");
    assert_eq!(res, Err(ParseError { kind: BadToken, position: 0 }));
}

// Agent section

#[test]
fn the_parser_should_be_able_to_parse_a_simple_agent() {
    let res = parse_agent("tell(token)");
    assert_eq!(res, Ok(prim("tell", "token")));
}

#[test]
fn the_parser_should_be_able_to_parse_a_simple_agent_in_brackets() {
    let res = parse_agent("(tell(token))");
    assert_eq!(res, Ok(prim("tell", "token")));
}

#[test]
fn the_parser_should_be_able_to_parse_sequence_operator() {
    let res = parse_agent("tell(token1);tell(token2)");
    let expect_res = Ok(op(";", prim("tell", "token1"), prim("tell", "token2")));
    assert_eq!(res, expect_res);
}

#[test]
fn the_parser_should_be_able_to_parse_parallel_operator() {
    let res = parse_agent("tell(token1)||tell(token2)");
    assert_eq!(res, Ok(op("||", prim("tell", "token1"), prim("tell", "token2"))));
}

#[test]
fn the_parser_should_be_able_to_parse_choice_operator() {
    let res = parse_agent("tell(token1)+tell(token2)");
    assert_eq!(res, Ok(op("+", prim("tell", "token1"), prim("tell", "token2"))));
}

#[test]
fn the_parser_should_be_able_to_parse_multiple_operators() {
    let res = parse_agent("tell(token1)||tell(token2)||tell(token3)");
    assert_eq!(
        res,
        Ok(op(
            "||",
            prim("tell", "token1"),
            op("||", prim("tell", "token2"), prim("tell", "token3"))
        ))
    );
}

#[test]
fn the_parser_should_be_able_to_parse_nested_operators() {
    let res1 = parse_agent("tell(token1);tell(token2)||tell(token3)+tell(token4)");
    assert_eq!(
        res1,
        Ok(op(
            "+",
            op(
                "||",
                op(";", prim("tell", "token1"), prim("tell", "token2")),
                prim("tell", "token3")
            ),
            prim("tell", "token4")
        ))
    );

    let res2 = parse_agent("tell(token1)+tell(token2)||tell(token3);tell(token4)");
    assert_eq!(
        res2,
        Ok(op(
            "+",
            prim("tell", "token1"),
            op(
                "||",
                prim("tell", "token2"),
                op(";", prim("tell", "token3"), prim("tell", "token4"))
            )
        ))
    );
}

#[test]
fn the_parser_should_refuse_hallucinate_operator() {
    let res = parse_agent("tell(token1)??tell(token2)");
    assert!(matches!(res, Err(_)));
    assert_eq!(res, fails(Trailing, 12));
}

#[test]
fn the_parser_should_refuse_hallucinate_token() {
    let res = parse_agent("tell(token1)@");
    assert!(matches!(res, Err(_)));
    assert_eq!(res, fails(Trailing, 12));
}

// Each kind of error, and the place it names.

#[test]
fn the_empty_text_is_an_error_of_its_own() {
    assert_eq!(parse(""), fails(Empty, 0));
}

#[test]
fn a_blank_is_no_part_of_an_agent() {
    assert_eq!(parse(" tell(a)"), fails(UnknownPrimitive, 0));
    assert_eq!(parse("tell(a) "), fails(Trailing, 7));
    assert_eq!(parse("tell(a) ; tell(b)"), fails(Trailing, 7));
    assert_eq!(parse("tell( a)"), fails(BadToken, 5));
    assert_eq!(parse("tell(a )"), fails(UnbalancedParen, 6));
}

#[test]
fn a_token_has_to_start_with_a_lower_case_letter() {
    assert_eq!(parse("tell(7oken)"), fails(BadToken, 5));
    assert_eq!(parse("ask(Token)"), fails(BadToken, 4));
    assert_eq!(parse("nask(_x)"), fails(BadToken, 5));
    assert_eq!(parse("get()"), fails(BadToken, 4));
    assert_eq!(parse("get("), fails(BadToken, 4));
    assert_eq!(parse("tell(é)"), fails(BadToken, 5));
    assert_eq!(parse("tell(a_B9)"), Ok(prim("tell", "a_B9")));
    assert_eq!(parse("tell(z)"), Ok(prim("tell", "z")));
}

#[test]
fn a_token_ends_where_its_characters_end() {
    assert_eq!(token("abc-def"), Ok(("-def", "abc")));
    assert_eq!(token("aé"), Ok(("é", "a")));
    assert_eq!(token("a)"), Ok((")", "a")));
    assert_eq!(token("x_1Y z"), Ok((" z", "x_1Y")));
    assert_eq!(token(""), Err(ParseError { kind: BadToken, position: 0 }));
    assert_eq!(token("_a"), Err(ParseError { kind: BadToken, position: 0 }));
    assert_eq!(parse("tell(aé)"), fails(UnbalancedParen, 6));
}

#[test]
fn an_unknown_name_is_no_primitive() {
    assert_eq!(parse("non(token)"), fails(UnknownPrimitive, 0));
    assert_eq!(parse("Tell(token)"), fails(UnknownPrimitive, 0));
    assert_eq!(parse("tell"), fails(UnknownPrimitive, 0));
    assert_eq!(parse("tel(a)"), fails(UnknownPrimitive, 0));
    assert_eq!(parse("tell(a);put(b)"), fails(UnknownPrimitive, 8));
    assert_eq!(parse("tell(a)||"), fails(UnknownPrimitive, 9));
    assert_eq!(parse("tell(a)+"), fails(UnknownPrimitive, 8));
    assert_eq!(parse("()"), fails(UnknownPrimitive, 1));
    assert_eq!(parse(")"), fails(UnknownPrimitive, 0));
    assert_eq!(parse(";tell(a)"), fails(UnknownPrimitive, 0));
}

#[test]
fn a_bracket_that_is_not_closed_is_reported_where_it_is_missed() {
    assert_eq!(parse("(tell(a)"), fails(UnbalancedParen, 8));
    assert_eq!(parse("tell(a"), fails(UnbalancedParen, 6));
    assert_eq!(parse("((tell(a))"), fails(UnbalancedParen, 10));
    assert_eq!(parse("(tell(a);tell(b)]"), fails(UnbalancedParen, 16));
    assert_eq!(parse("(tell(a)|tell(b))"), fails(UnbalancedParen, 8));
}

#[test]
fn what_follows_an_agent_is_trailing() {
    assert_eq!(parse("tell(a))"), fails(Trailing, 7));
    assert_eq!(parse("tell(a)|tell(b)"), fails(Trailing, 7));
    assert_eq!(parse("tell(a)tell(b)"), fails(Trailing, 7));
    assert_eq!(parse("(tell(a))(tell(b))"), fails(Trailing, 9));
    assert_eq!(primitive("tell(a);ask(b)"), Ok((";ask(b)", prim("tell", "a"))));
}

#[test]
fn operators_bind_by_precedence_and_to_the_right() {
    let a = || prim("tell", "a");
    let b = || prim("ask", "b");
    let c = || prim("get", "c");
    assert_eq!(parse("tell(a);ask(b);get(c)"), Ok(op(";", a(), op(";", b(), c()))));
    assert_eq!(parse("tell(a)+ask(b)+get(c)"), Ok(op("+", a(), op("+", b(), c()))));
    assert_eq!(parse("(tell(a);ask(b));get(c)"), Ok(op(";", op(";", a(), b()), c())));
    assert_eq!(parse("tell(a);(ask(b)+get(c))"), Ok(op(";", a(), op("+", b(), c()))));
    assert_eq!(parse("tell(a)||ask(b);get(c)"), Ok(op("||", a(), op(";", b(), c()))));
    assert_eq!(parse("tell(a)+ask(b)||get(c)"), Ok(op("+", a(), op("||", b(), c()))));
    assert_eq!(parse("(tell(a)+ask(b))||get(c)"), Ok(op("||", op("+", a(), b()), c())));
    assert_eq!(parse("(((tell(a))))"), Ok(a()));
    assert_eq!(
        parse("(tell(bach);get(rust))||(get(bach);tell(rust))"),
        Ok(op(
            "||",
            op(";", prim("tell", "bach"), prim("get", "rust")),
            op(";", prim("get", "bach"), prim("tell", "rust"))
        ))
    );
}

#[test]
fn parse_never_gives_the_empty_agent() {
    for text in ["tell(a)", "(ask(a))", "get(a);nask(b)", "", "()", "tell(a)+", "x"] {
        if let Ok(expr) = parse(text) {
            assert_ne!(expr, Expr::BachtAstEmptyAgent());
        }
    }
}
