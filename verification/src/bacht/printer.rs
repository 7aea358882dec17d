//! The canonical text of an agent, and the law that the parser reads it back.

use crate::bacht::grammar::{
    has_char, has_word, opens, primitive_name, spec_choice, spec_para, spec_parse,
    spec_primitive, spec_seq, spec_simple, token_length, token_run, Parsed,
};
use crate::model::data::{
    is_primitive_name, is_token, is_token_char, lemma_names_and_operators, Agent, Expr,
};
use crate::text::same_text;
use vstd::prelude::*;
use vstd::string::StringExecFns;

verus! {

/// How tightly an operator binds: choice the least, then parallel
/// composition, then sequence.
pub open spec fn precedence(op: Seq<char>) -> nat {
    if op == "+"@ {
        1
    } else if op == "||"@ {
        2
    } else {
        3
    }
}

/// The canonical text of an agent. An operand that is itself composed stands
/// in brackets unless its operator binds more tightly than the one above it.
pub open spec fn printed(agent: Agent) -> Seq<char>
    decreases agent, 0nat,
{
    match agent {
        Agent::Empty => Seq::empty(),
        Agent::Prim(name, token) => name + seq!['('] + token + seq![')'],
        Agent::Op(op, left, right) => shown(*left, precedence(op) + 1) + op + shown(
            *right,
            precedence(op) + 1,
        ),
    }
}

/// The text of an agent as an operand: in brackets where it is composed by an
/// operator that binds less tightly than `level`.
pub open spec fn shown(agent: Agent, level: nat) -> Seq<char>
    decreases agent, 1nat,
{
    if needs_brackets(agent, level) {
        seq!['('] + printed(agent) + seq![')']
    } else {
        printed(agent)
    }
}

/// Says whether `agent` is composed by an operator that binds less tightly
/// than `level`.
pub open spec fn needs_brackets(agent: Agent, level: nat) -> bool {
    agent matches Agent::Op(op, _, _) && precedence(op) < level
}

/// The number that says how tightly `op` binds.
fn precedence_of(op: &str) -> (res: u8)
    ensures
        res == precedence(op@),
{
    if same_text(op, "+") {
        1
    } else if same_text(op, "||") {
        2
    } else {
        3
    }
}

/// The canonical text of `agent`.
pub fn print(agent: &Expr) -> (res: String)
    ensures
        res@ == printed(agent@),
    decreases agent@.nodes(), 0nat,
{
    let mut res = String::new();
    match agent {
        Expr::BachtAstEmptyAgent() => {},
        Expr::BachtAstPrimitive(name, token) => {
            res.append(name.as_str());
            res.append("(");
            res.append(token.as_str());
            res.append(")");
            proof {
                reveal_strlit("(");
                reveal_strlit(")");
                assert("("@ =~= seq!['(']);
                assert(")"@ =~= seq![')']);
                assert(res@ =~= name@ + seq!['('] + token@ + seq![')']);
            }
        },
        Expr::BachtAstAgent(op, left, right) => {
            let level = precedence_of(op.as_str()) + 1;
            let first = print_operand(left, level);
            let second = print_operand(right, level);
            res.append(first.as_str());
            res.append(op.as_str());
            res.append(second.as_str());
            assert(res@ =~= first@ + op@ + second@);
        },
    }
    res
}

/// The text of `agent` as an operand under an operator of the level below
/// `level`.
fn print_operand(agent: &Expr, level: u8) -> (res: String)
    ensures
        res@ == shown(agent@, level as nat),
    decreases agent@.nodes(), 1nat,
{
    let inner = print(agent);
    let composed_below = match agent {
        Expr::BachtAstAgent(op, _, _) => precedence_of(op.as_str()) < level,
        _ => false,
    };
    if composed_below {
        let mut res = String::new();
        res.append("(");
        res.append(inner.as_str());
        res.append(")");
        proof {
            reveal_strlit("(");
            reveal_strlit(")");
            assert("("@ =~= seq!['(']);
            assert(")"@ =~= seq![')']);
            assert(res@ =~= seq!['('] + inner@ + seq![')']);
        }
        res
    } else {
        inner
    }
}

/// A text that holds two words one after the other holds each of them at its
/// place.
pub proof fn lemma_word_split(s: Seq<char>, pos: nat, x: Seq<char>, y: Seq<char>)
    requires
        has_word(s, pos, x + y),
    ensures
        has_word(s, pos, x),
        has_word(s, pos + x.len(), y),
{
    let whole = s.subrange(pos as int, (pos + (x + y).len()) as int);
    assert(whole == x + y);
    assert(s.subrange(pos as int, (pos + x.len()) as int) =~= whole.subrange(0, x.len() as int));
    assert(whole.subrange(0, x.len() as int) =~= x);
    assert(s.subrange((pos + x.len()) as int, (pos + x.len() + y.len()) as int)
        =~= whole.subrange(x.len() as int, (x.len() + y.len()) as int));
    assert(whole.subrange(x.len() as int, (x.len() + y.len()) as int) =~= y);
}

/// A word of one character stands where that character stands.
pub proof fn lemma_word_of_one(s: Seq<char>, pos: nat, c: char)
    requires
        has_word(s, pos, seq![c]),
    ensures
        has_char(s, pos, c),
{
    assert(s.subrange(pos as int, (pos + 1) as int)[0] == c);
}

/// A word that stands in a text has its characters there.
pub proof fn lemma_word_chars(s: Seq<char>, pos: nat, word: Seq<char>, i: int)
    requires
        has_word(s, pos, word),
        0 <= i < word.len(),
    ensures
        pos + i < s.len(),
        s[pos + i] == word[i],
{
    assert(s.subrange(pos as int, (pos + word.len()) as int)[i] == word[i]);
}

/// A run of token characters is as long as the token characters go.
pub proof fn lemma_token_run_exact(s: Seq<char>, from: nat, n: nat)
    requires
        from + n <= s.len(),
        forall|i: int| from <= i < from + n ==> is_token_char(#[trigger] s[i]),
        from + n == s.len() || !is_token_char(s[(from + n) as int]),
    ensures
        token_run(s, from) == n,
    decreases n,
{
    if n > 0 {
        assert(is_token_char(s[from as int]));
        lemma_token_run_exact(s, from + 1, (n - 1) as nat);
    }
}

/// The production of a level of the grammar: 4 is `simple`, 3 is `seq`, 2 is
/// `para` and 1 is `choice`.
pub open spec fn production(level: nat, s: Seq<char>, pos: nat) -> Parsed {
    if level >= 4 {
        spec_simple(s, pos)
    } else if level == 3 {
        spec_seq(s, pos)
    } else if level == 2 {
        spec_para(s, pos)
    } else {
        spec_choice(s, pos)
    }
}

/// No operator that the production of `level` would read on stands in `s` at
/// `at`.
pub open spec fn ends_at(level: nat, s: Seq<char>, at: nat) -> bool {
    &&& level <= 3 ==> !has_char(s, at, ';')
    &&& level <= 2 ==> !(has_char(s, at, '|') && has_char(s, at + 1, '|'))
    &&& level <= 1 ==> !has_char(s, at, '+')
}

/// The text of an agent, in brackets or not.
pub open spec fn text_of(agent: Agent, wrapped: bool) -> Seq<char> {
    if wrapped {
        seq!['('] + printed(agent) + seq![')']
    } else {
        printed(agent)
    }
}

/// A primitive is read back from its text.
proof fn lemma_reads_primitive(s: Seq<char>, pos: nat, name: Seq<char>, token: Seq<char>)
    requires
        is_primitive_name(name),
        is_token(token),
        has_word(s, pos, printed(Agent::Prim(name, token))),
    ensures
        primitive_name(s, pos) == Some(name),
        spec_primitive(s, pos) == Ok::<_, (crate::model::error::ParseErrorKind, nat)>(
            (Agent::Prim(name, token), printed(Agent::Prim(name, token)).len()),
        ),
{
    lemma_names_and_operators();
    let text = printed(Agent::Prim(name, token));
    let head = name + seq!['('];
    let body = head + token;
    assert(text == body + seq![')']);
    lemma_word_split(s, pos, body, seq![')']);
    lemma_word_split(s, pos, head, token);
    lemma_word_split(s, pos, name, seq!['(']);
    lemma_word_of_one(s, pos + name.len(), '(');
    lemma_word_of_one(s, pos + body.len(), ')');
    assert(opens(s, pos, name));
    lemma_word_chars(s, pos, name, 0);
    assert(primitive_name(s, pos) == Some(name)) by {
        if has_word(s, pos, "tell"@) {
            lemma_word_chars(s, pos, "tell"@, 0);
        }
        if has_word(s, pos, "ask"@) {
            lemma_word_chars(s, pos, "ask"@, 0);
        }
        if has_word(s, pos, "get"@) {
            lemma_word_chars(s, pos, "get"@, 0);
        }
        if has_word(s, pos, "nask"@) {
            lemma_word_chars(s, pos, "nask"@, 0);
        }
    }
    let start = pos + name.len() + 1;
    assert(start == pos + head.len());
    lemma_word_chars(s, start, token, 0);
    assert forall|i: int| start + 1 <= i < start + 1 + (token.len() - 1) implies is_token_char(
        #[trigger] s[i],
    ) by {
        lemma_word_chars(s, start, token, i - start);
    }
    lemma_token_run_exact(s, start + 1, (token.len() - 1) as nat);
    assert(token_length(s, start) == Some(token.len()));
    assert(s.subrange(start as int, (start + token.len()) as int) == token);
}

/// The production of a level reads an agent back from its text, where the text
/// is one that the level can read without brackets or stands in brackets, and
/// where no operator of the level or a tighter one follows it.
proof fn lemma_reads(level: nat, s: Seq<char>, pos: nat, agent: Agent, wrapped: bool)
    requires
        1 <= level <= 4,
        agent.is_written(),
        has_word(s, pos, text_of(agent, wrapped)),
        ends_at(level, s, pos + text_of(agent, wrapped).len()),
        wrapped || !needs_brackets(agent, level),
    ensures
        production(level, s, pos) == Ok::<_, (crate::model::error::ParseErrorKind, nat)>(
            (agent, text_of(agent, wrapped).len()),
        ),
    decreases agent, (if wrapped {
        1nat
    } else {
        0nat
    }), 4 - level,
{
    lemma_names_and_operators();
    let text = text_of(agent, wrapped);
    let composed_here = !wrapped && (agent matches Agent::Op(op, _, _) && precedence(op) == level);
    if level < 4 && !composed_here {
        lemma_reads(level + 1, s, pos, agent, wrapped);
    } else if level == 4 {
        if wrapped {
            let inner = printed(agent);
            let opened = seq!['('] + inner;
            assert(text == opened + seq![')']);
            lemma_word_split(s, pos, opened, seq![')']);
            lemma_word_split(s, pos, seq!['('], inner);
            lemma_word_of_one(s, pos, '(');
            lemma_word_of_one(s, pos + opened.len(), ')');
            assert(primitive_name(s, pos) is None) by {
                if has_word(s, pos, "tell"@) {
                    lemma_word_chars(s, pos, "tell"@, 0);
                }
                if has_word(s, pos, "ask"@) {
                    lemma_word_chars(s, pos, "ask"@, 0);
                }
                if has_word(s, pos, "get"@) {
                    lemma_word_chars(s, pos, "get"@, 0);
                }
                if has_word(s, pos, "nask"@) {
                    lemma_word_chars(s, pos, "nask"@, 0);
                }
            }
            lemma_reads(1, s, pos + 1, agent, false);
        } else {
            match agent {
                Agent::Prim(name, token) => {
                    lemma_reads_primitive(s, pos, name, token);
                },
                _ => {},
            }
        }
    } else {
        match agent {
            Agent::Op(op, left, right) => {
                let below = level + 1;
                let first = shown(*left, below);
                let second = shown(*right, below);
                let head = first + op;
                assert(text == head + second);
                lemma_word_split(s, pos, head, second);
                lemma_word_split(s, pos, first, op);
                lemma_word_chars(s, pos + first.len(), op, 0);
                if level == 2 {
                    lemma_word_chars(s, pos + first.len(), op, 1);
                }
                assert(first == text_of(*left, needs_brackets(*left, below)));
                assert(second == text_of(*right, needs_brackets(*right, below)));
                lemma_reads(below, s, pos, *left, needs_brackets(*left, below));
                lemma_reads(
                    level,
                    s,
                    pos + first.len() + op.len(),
                    *right,
                    needs_brackets(*right, below),
                );
            },
            _ => {},
        }
    }
}

/// The parser reads the canonical text of an agent back as that agent: for
/// every agent that a text can denote, the agent of its canonical text is the
/// agent itself.
pub proof fn lemma_parse_of_printed(agent: Agent)
    requires
        agent.is_written(),
    ensures
        spec_parse(printed(agent)) == Ok::<_, (crate::model::error::ParseErrorKind, nat)>(agent),
{
    let s = printed(agent);
    assert(s.subrange(0, s.len() as int) =~= s);
    lemma_reads(1, s, 0, agent, false);
    crate::bacht::grammar::lemma_choice_sound(s, 0);
}

} // verus!
