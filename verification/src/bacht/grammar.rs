//! The grammar of agents, as mathematics. Each production is a function from a
//! text and a place in it to what stands there.
//!
//! ```text
//! agent  := choice
//! choice := para ("+" choice)?
//! para   := seq ("||" para)?
//! seq    := simple (";" seq)?
//! simple := prim | "(" choice ")"
//! prim   := ("tell" | "ask" | "get" | "nask") "(" token ")"
//! token  := [a-z][a-zA-Z0-9_]*
//! ```
//!
//! No blank is allowed anywhere. After an operator its right operand has to
//! follow: what is wrong there is the error of the whole text.

use crate::model::data::{is_token_char, is_token_start, Agent};
use crate::model::error::ParseErrorKind;
use vstd::prelude::*;

verus! {

/// What stands at a place of a text: an agent and the number of characters
/// that it takes, or the kind of the error and the place where it was found.
pub type Parsed = Result<(Agent, nat), (ParseErrorKind, nat)>;

/// The number of token characters that follow each other in `s` from `from`
/// on.
pub open spec fn token_run(s: Seq<char>, from: nat) -> nat
    decreases s.len() - from,
{
    if from < s.len() && is_token_char(s[from as int]) {
        1 + token_run(s, from + 1)
    } else {
        0
    }
}

/// The length of the token that starts at `pos`: the longest one, as far as
/// token characters go. `None` where no lower-case letter stands there.
pub open spec fn token_length(s: Seq<char>, pos: nat) -> Option<nat> {
    if pos < s.len() && is_token_start(s[pos as int]) {
        Some(1 + token_run(s, pos + 1))
    } else {
        None
    }
}

/// `word` stands in `s` at `pos`.
pub open spec fn has_word(s: Seq<char>, pos: nat, word: Seq<char>) -> bool {
    pos + word.len() <= s.len() && s.subrange(pos as int, (pos + word.len()) as int) == word
}

/// The character `c` stands in `s` at `pos`.
pub open spec fn has_char(s: Seq<char>, pos: nat, c: char) -> bool {
    pos < s.len() && s[pos as int] == c
}

/// The name, followed by an opening bracket, stands in `s` at `pos`.
pub open spec fn opens(s: Seq<char>, pos: nat, name: Seq<char>) -> bool {
    has_word(s, pos, name) && has_char(s, pos + name.len(), '(')
}

/// The name of the primitive that opens at `pos`, if one does.
pub open spec fn primitive_name(s: Seq<char>, pos: nat) -> Option<Seq<char>> {
    if opens(s, pos, "tell"@) {
        Some("tell"@)
    } else if opens(s, pos, "ask"@) {
        Some("ask"@)
    } else if opens(s, pos, "get"@) {
        Some("get"@)
    } else if opens(s, pos, "nask"@) {
        Some("nask"@)
    } else {
        None
    }
}

/// `prim`: one of the four names, a token in brackets.
pub open spec fn spec_primitive(s: Seq<char>, pos: nat) -> Parsed {
    match primitive_name(s, pos) {
        None => Err((ParseErrorKind::UnknownPrimitive, pos)),
        Some(name) => {
            let start = pos + name.len() + 1;
            match token_length(s, start) {
                None => Err((ParseErrorKind::BadToken, start)),
                Some(n) => {
                    if has_char(s, start + n, ')') {
                        Ok(
                            (
                                Agent::Prim(name, s.subrange(start as int, (start + n) as int)),
                                name.len() + n + 2,
                            ),
                        )
                    } else {
                        Err((ParseErrorKind::UnbalancedParen, start + n))
                    }
                },
            }
        },
    }
}

/// `simple`: a primitive, or a choice in brackets.
pub open spec fn spec_simple(s: Seq<char>, pos: nat) -> Parsed
    decreases s.len() - pos, 0nat,
{
    if primitive_name(s, pos) is Some {
        spec_primitive(s, pos)
    } else if has_char(s, pos, '(') {
        match spec_choice(s, pos + 1) {
            Err(e) => Err(e),
            Ok((agent, n)) => {
                if has_char(s, pos + 1 + n, ')') {
                    Ok((agent, n + 2))
                } else {
                    Err((ParseErrorKind::UnbalancedParen, pos + 1 + n))
                }
            },
        }
    } else {
        Err((ParseErrorKind::UnknownPrimitive, pos))
    }
}

/// `seq`: simple agents joined by `;`, the rightmost joined first.
pub open spec fn spec_seq(s: Seq<char>, pos: nat) -> Parsed
    decreases s.len() - pos, 1nat,
{
    match spec_simple(s, pos) {
        Err(e) => Err(e),
        Ok((left, n)) => {
            if has_char(s, pos + n, ';') {
                match spec_seq(s, pos + n + 1) {
                    Err(e) => Err(e),
                    Ok((right, m)) => Ok(
                        (Agent::Op(";"@, Box::new(left), Box::new(right)), n + 1 + m),
                    ),
                }
            } else {
                Ok((left, n))
            }
        },
    }
}

/// `para`: sequences joined by `||`, the rightmost joined first.
pub open spec fn spec_para(s: Seq<char>, pos: nat) -> Parsed
    decreases s.len() - pos, 2nat,
{
    match spec_seq(s, pos) {
        Err(e) => Err(e),
        Ok((left, n)) => {
            if has_char(s, pos + n, '|') && has_char(s, pos + n + 1, '|') {
                match spec_para(s, pos + n + 2) {
                    Err(e) => Err(e),
                    Ok((right, m)) => Ok(
                        (Agent::Op("||"@, Box::new(left), Box::new(right)), n + 2 + m),
                    ),
                }
            } else {
                Ok((left, n))
            }
        },
    }
}

/// `choice`: parallel compositions joined by `+`, the rightmost joined first.
pub open spec fn spec_choice(s: Seq<char>, pos: nat) -> Parsed
    decreases s.len() - pos, 3nat,
{
    match spec_para(s, pos) {
        Err(e) => Err(e),
        Ok((left, n)) => {
            if has_char(s, pos + n, '+') {
                match spec_choice(s, pos + n + 1) {
                    Err(e) => Err(e),
                    Ok((right, m)) => Ok(
                        (Agent::Op("+"@, Box::new(left), Box::new(right)), n + 1 + m),
                    ),
                }
            } else {
                Ok((left, n))
            }
        },
    }
}

/// The agent that the whole of `s` denotes. The empty text is an error of its
/// own kind, and so is a text of which an agent takes only a part.
pub open spec fn spec_parse(s: Seq<char>) -> Result<Agent, (ParseErrorKind, nat)> {
    if s.len() == 0 {
        Err((ParseErrorKind::Empty, 0nat))
    } else {
        match spec_choice(s, 0) {
            Err(e) => Err(e),
            Ok((agent, n)) => {
                if n == s.len() {
                    Ok(agent)
                } else {
                    Err((ParseErrorKind::Trailing, n))
                }
            },
        }
    }
}

/// What a production gives, where it gives an agent: one that a text can
/// denote, taken from at least one character that all lie inside the text.
pub open spec fn sound(parsed: Parsed, s: Seq<char>, pos: nat) -> bool {
    parsed matches Ok((agent, n)) ==> agent.is_written() && n >= 1 && pos + n <= s.len()
}

/// The characters of a run of token characters are token characters, and lie
/// inside the text.
pub proof fn lemma_token_run_chars(s: Seq<char>, from: nat, i: nat)
    requires
        i < token_run(s, from),
    ensures
        from + i < s.len(),
        is_token_char(s[(from + i) as int]),
    decreases i,
{
    if i > 0 {
        lemma_token_run_chars(s, from + 1, (i - 1) as nat);
    }
}

/// A primitive that the grammar finds holds one of the four names and a token.
pub proof fn lemma_primitive_sound(s: Seq<char>, pos: nat)
    ensures
        sound(spec_primitive(s, pos), s, pos),
{
    if let Some(name) = primitive_name(s, pos) {
        let start = pos + name.len() + 1;
        if let Some(n) = token_length(s, start) {
            if has_char(s, start + n, ')') {
                let token = s.subrange(start as int, (start + n) as int);
                assert forall|i: int| 1 <= i < token.len() implies is_token_char(
                    #[trigger] token[i],
                ) by {
                    lemma_token_run_chars(s, start + 1, (i - 1) as nat);
                }
            }
        }
    }
}

/// A simple agent that the grammar finds is one that a text can denote.
pub proof fn lemma_simple_sound(s: Seq<char>, pos: nat)
    ensures
        sound(spec_simple(s, pos), s, pos),
    decreases s.len() - pos, 0nat,
{
    if primitive_name(s, pos) is Some {
        lemma_primitive_sound(s, pos);
    } else if has_char(s, pos, '(') {
        lemma_choice_sound(s, pos + 1);
    }
}

/// A sequence that the grammar finds is one that a text can denote.
pub proof fn lemma_seq_sound(s: Seq<char>, pos: nat)
    ensures
        sound(spec_seq(s, pos), s, pos),
    decreases s.len() - pos, 1nat,
{
    lemma_simple_sound(s, pos);
    if let Ok((_, n)) = spec_simple(s, pos) {
        if has_char(s, pos + n, ';') {
            lemma_seq_sound(s, pos + n + 1);
        }
    }
}

/// A parallel composition that the grammar finds is one that a text can
/// denote.
pub proof fn lemma_para_sound(s: Seq<char>, pos: nat)
    ensures
        sound(spec_para(s, pos), s, pos),
    decreases s.len() - pos, 2nat,
{
    lemma_seq_sound(s, pos);
    if let Ok((_, n)) = spec_seq(s, pos) {
        if has_char(s, pos + n, '|') && has_char(s, pos + n + 1, '|') {
            lemma_para_sound(s, pos + n + 2);
        }
    }
}

/// A choice that the grammar finds is one that a text can denote.
pub proof fn lemma_choice_sound(s: Seq<char>, pos: nat)
    ensures
        sound(spec_choice(s, pos), s, pos),
    decreases s.len() - pos, 3nat,
{
    lemma_para_sound(s, pos);
    if let Ok((_, n)) = spec_para(s, pos) {
        if has_char(s, pos + n, '+') {
            lemma_choice_sound(s, pos + n + 1);
        }
    }
}

/// The agent of a text is never the empty agent: it is a tree of the three
/// operators over the four primitives, with a token in each, and so it can be
/// run.
pub proof fn lemma_parsed_is_written(s: Seq<char>)
    ensures
        spec_parse(s) matches Ok(agent) ==> agent.is_written() && agent.is_runnable()
            && agent.is_reducible() && !(agent is Empty),
{
    lemma_choice_sound(s, 0);
    if let Ok(agent) = spec_parse(s) {
        agent.lemma_written_is_runnable();
        agent.lemma_runnable_is_reducible();
    }
}

/// An error of the grammar lies inside the text or at its end.
pub proof fn lemma_error_inside(s: Seq<char>)
    ensures
        spec_parse(s) matches Err((_, position)) ==> position <= s.len(),
{
    lemma_choice_error_inside(s, 0);
    lemma_choice_sound(s, 0);
}

/// An error in a primitive lies between its start and the end of the text.
pub proof fn lemma_primitive_error_inside(s: Seq<char>, pos: nat)
    requires
        pos <= s.len(),
    ensures
        spec_primitive(s, pos) matches Err((_, position)) ==> pos <= position <= s.len(),
{
    if let Some(name) = primitive_name(s, pos) {
        let start = pos + name.len() + 1;
        if let Some(n) = token_length(s, start) {
            if n > 1 {
                lemma_token_run_chars(s, start + 1, (n - 2) as nat);
            }
        }
    }
}

/// An error in a simple agent lies between its start and the end of the text.
pub proof fn lemma_simple_error_inside(s: Seq<char>, pos: nat)
    requires
        pos <= s.len(),
    ensures
        spec_simple(s, pos) matches Err((_, position)) ==> pos <= position <= s.len(),
    decreases s.len() - pos, 0nat,
{
    if primitive_name(s, pos) is Some {
        lemma_primitive_error_inside(s, pos);
    } else if has_char(s, pos, '(') {
        lemma_choice_error_inside(s, pos + 1);
        lemma_choice_sound(s, pos + 1);
    }
}

/// An error in a sequence lies between its start and the end of the text.
pub proof fn lemma_seq_error_inside(s: Seq<char>, pos: nat)
    requires
        pos <= s.len(),
    ensures
        spec_seq(s, pos) matches Err((_, position)) ==> pos <= position <= s.len(),
    decreases s.len() - pos, 1nat,
{
    lemma_simple_error_inside(s, pos);
    lemma_simple_sound(s, pos);
    if let Ok((_, n)) = spec_simple(s, pos) {
        if has_char(s, pos + n, ';') {
            lemma_seq_error_inside(s, pos + n + 1);
        }
    }
}

/// An error in a parallel composition lies between its start and the end of
/// the text.
pub proof fn lemma_para_error_inside(s: Seq<char>, pos: nat)
    requires
        pos <= s.len(),
    ensures
        spec_para(s, pos) matches Err((_, position)) ==> pos <= position <= s.len(),
    decreases s.len() - pos, 2nat,
{
    lemma_seq_error_inside(s, pos);
    lemma_seq_sound(s, pos);
    if let Ok((_, n)) = spec_seq(s, pos) {
        if has_char(s, pos + n, '|') && has_char(s, pos + n + 1, '|') {
            lemma_para_error_inside(s, pos + n + 2);
        }
    }
}

/// An error in a choice lies between its start and the end of the text.
pub proof fn lemma_choice_error_inside(s: Seq<char>, pos: nat)
    requires
        pos <= s.len(),
    ensures
        spec_choice(s, pos) matches Err((_, position)) ==> pos <= position <= s.len(),
    decreases s.len() - pos, 3nat,
{
    lemma_para_error_inside(s, pos);
    lemma_para_sound(s, pos);
    if let Ok((_, n)) = spec_para(s, pos) {
        if has_char(s, pos + n, '+') {
            lemma_choice_error_inside(s, pos + n + 1);
        }
    }
}

} // verus!
