//! The parser of agents: from a text to its syntax tree, by recursive descent
//! along the grammar.

use crate::bacht::grammar::{
    lemma_error_inside, lemma_parsed_is_written, has_char, has_word, opens, primitive_name, spec_choice, spec_para, spec_parse,
    spec_primitive, spec_seq, spec_simple, token_length, token_run, Parsed,
};
use crate::model::data::Expr;
use crate::model::error::{ParseError, ParseErrorKind};
use regex::Regex;
use vstd::prelude::*;
use vstd::string::StrSliceExecFns;

verus! {

/// Calls `regex::Regex::new` on `pattern` and `Regex::find` on `haystack`, and
/// gives the end of the match. The contract speaks of one pattern only, that of
/// a token at the start of the text: there the leftmost match is the longest
/// run of a lower-case letter and then letters, digits and underscores from the
/// first character on, and there is none where the text starts otherwise. Its
/// characters take one byte each, so the end in bytes is their number.
#[verifier::external_body]
fn leading_match(pattern: &str, haystack: &str) -> (len: Option<usize>)
    requires
        pattern@ == "^[a-z][a-zA-Z0-9_]*"@,
    ensures
        match len {
            Some(n) => token_length(haystack@, 0) == Some(n as nat),
            None => token_length(haystack@, 0) is None,
        },
{
    match Regex::new(pattern) {
        Ok(re) => re.find(haystack).map(|m| m.end()),
        Err(_) => None,
    }
}

/// What a production found, in the terms of the grammar: on success the tree
/// and the characters taken from `pos` on, on failure the error.
pub open spec fn found(res: Result<(Expr, usize), ParseError>, pos: usize) -> Parsed {
    match res {
        Ok((expr, end)) => Ok((expr@, (end - pos) as nat)),
        Err(e) => Err((e.kind, e.position as nat)),
    }
}

/// A run of token characters ends inside the text.
pub proof fn lemma_token_run_bound(s: Seq<char>, from: nat)
    requires
        from <= s.len(),
    ensures
        from + token_run(s, from) <= s.len(),
    decreases s.len() - from,
{
    if from < s.len() && crate::model::data::is_token_char(s[from as int]) {
        lemma_token_run_bound(s, from + 1);
    }
}

/// A run of token characters in the rest of a text is the run at that place of
/// the text.
pub proof fn lemma_token_run_of_rest(s: Seq<char>, pos: nat, from: nat)
    requires
        pos + from <= s.len(),
    ensures
        token_run(s.subrange(pos as int, s.len() as int), from) == token_run(s, pos + from),
    decreases s.len() - pos - from,
{
    let rest = s.subrange(pos as int, s.len() as int);
    if pos + from < s.len() {
        assert(rest[from as int] == s[(pos + from) as int]);
        lemma_token_run_of_rest(s, pos, from + 1);
    }
}

/// The text as a list of its characters.
fn chars_of(input: &str) -> (chars: Vec<char>)
    ensures
        chars@ == input@,
{
    let total = input.unicode_len();
    let mut chars: Vec<char> = Vec::new();
    let mut i: usize = 0;
    while i < total
        invariant
            i <= total,
            total == input@.len(),
            chars@ == input@.take(i as int),
        decreases total - i,
    {
        chars.push(input.get_char(i));
        assert(input@.take(i as int + 1) == input@.take(i as int).push(input@[i as int]));
        i += 1;
    }
    assert(input@.take(total as int) == input@);
    chars
}

/// The end of the token that starts at `pos`, if one starts there.
fn token_at(text: &str, total: usize, pos: usize) -> (res: Option<usize>)
    requires
        total == text@.len(),
        pos <= total,
    ensures
        match res {
            Some(end) => pos < end <= total && token_length(text@, pos as nat) == Some(
                (end - pos) as nat,
            ),
            None => token_length(text@, pos as nat) is None,
        },
{
    let rest = text.substring_char(pos, total);
    proof {
        if pos < total {
            assert(rest@[0] == text@[pos as int]);
            lemma_token_run_of_rest(text@, pos as nat, 1);
            lemma_token_run_bound(text@, pos as nat + 1);
        }
    }
    match leading_match("^[a-z][a-zA-Z0-9_]*", rest) {
        Some(n) => Some(pos + n),
        None => None,
    }
}

/// `token`: the longest token at the start of `input`, with the rest of the
/// text before it. A text that does not start with a lower-case letter has
/// none.
pub fn token(input: &str) -> (res: Result<(&str, &str), ParseError>)
    ensures
        match res {
            Ok((rest, tok)) => {
                &&& token_length(input@, 0) == Some(tok@.len())
                &&& tok@.len() <= input@.len()
                &&& tok@ == input@.subrange(0, tok@.len() as int)
                &&& rest@ == input@.subrange(tok@.len() as int, input@.len() as int)
            },
            Err(e) => token_length(input@, 0) is None && e == (ParseError {
                kind: ParseErrorKind::BadToken,
                position: 0,
            }),
        },
{
    let total = input.unicode_len();
    match token_at(input, total, 0) {
        Some(end) => Ok((input.substring_char(end, total), input.substring_char(0, end))),
        None => Err(ParseError { kind: ParseErrorKind::BadToken, position: 0 }),
    }
}

/// Says whether `word` stands in the text at `pos`.
fn word_at(chars: &Vec<char>, pos: usize, word: &str) -> (res: bool)
    requires
        pos <= chars.len(),
    ensures
        res == has_word(chars@, pos as nat, word@),
{
    let n = word.unicode_len();
    if chars.len() - pos < n {
        return false;
    }
    let mut j: usize = 0;
    while j < n
        invariant
            j <= n,
            n == word@.len(),
            pos + n <= chars.len(),
            forall|k: int| 0 <= k < j ==> chars@[pos + k] == word@[k],
        decreases n - j,
    {
        if chars[pos + j] != word.get_char(j) {
            assert(chars@.subrange(pos as int, pos + n)[j as int] != word@[j as int]);
            return false;
        }
        j += 1;
    }
    assert(chars@.subrange(pos as int, pos + n) =~= word@);
    true
}

/// Says whether `c` stands in the text at `pos`.
fn char_at(chars: &Vec<char>, pos: usize, c: char) -> (res: bool)
    ensures
        res == has_char(chars@, pos as nat, c),
{
    pos < chars.len() && chars[pos] == c
}

/// Says whether the name, followed by an opening bracket, stands in the text
/// at `pos`.
fn opens_at(chars: &Vec<char>, pos: usize, name: &str) -> (res: bool)
    requires
        pos <= chars.len(),
    ensures
        res == opens(chars@, pos as nat, name@),
{
    if word_at(chars, pos, name) {
        char_at(chars, pos + name.unicode_len(), '(')
    } else {
        false
    }
}

/// `prim` at `pos`: the primitive and the place behind it.
fn primitive_at(text: &str, chars: &Vec<char>, pos: usize) -> (res: Result<(Expr, usize), ParseError>)
    requires
        chars@ == text@,
        pos <= chars.len(),
    ensures
        found(res, pos) == spec_primitive(text@, pos as nat),
        res matches Ok((_, end)) ==> pos < end <= chars.len(),
{
    let name = if opens_at(chars, pos, "tell") {
        "tell"
    } else if opens_at(chars, pos, "ask") {
        "ask"
    } else if opens_at(chars, pos, "get") {
        "get"
    } else if opens_at(chars, pos, "nask") {
        "nask"
    } else {
        return Err(ParseError { kind: ParseErrorKind::UnknownPrimitive, position: pos });
    };
    assert(primitive_name(text@, pos as nat) == Some(name@));
    let start = pos + name.unicode_len() + 1;
    match token_at(text, chars.len(), start) {
        None => Err(ParseError { kind: ParseErrorKind::BadToken, position: start }),
        Some(end) => {
            if char_at(chars, end, ')') {
                let token = text.substring_char(start, end);
                Ok((Expr::BachtAstPrimitive(name.to_owned(), token.to_owned()), end + 1))
            } else {
                Err(ParseError { kind: ParseErrorKind::UnbalancedParen, position: end })
            }
        },
    }
}

/// `prim`: a primitive at the start of `input`, with the rest of the text
/// before it.
pub fn primitive(input: &str) -> (res: Result<(&str, Expr), ParseError>)
    ensures
        match res {
            Ok((rest, expr)) => {
                &&& spec_primitive(input@, 0) matches Ok((agent, n))
                &&& expr@ == agent
                &&& n <= input@.len()
                &&& rest@ == input@.subrange(n as int, input@.len() as int)
            },
            Err(e) => spec_primitive(input@, 0) == Err::<(crate::model::data::Agent, nat), _>(
                (e.kind, e.position as nat),
            ),
        },
{
    let chars = chars_of(input);
    match primitive_at(input, &chars, 0) {
        Ok((expr, end)) => Ok((input.substring_char(end, chars.len()), expr)),
        Err(e) => Err(e),
    }
}

/// `simple` at `pos`: a primitive, or a choice in brackets.
fn simple_agent(text: &str, chars: &Vec<char>, pos: usize) -> (res: Result<(Expr, usize), ParseError>)
    requires
        chars@ == text@,
        pos <= chars.len(),
    ensures
        found(res, pos) == spec_simple(text@, pos as nat),
        res matches Ok((_, end)) ==> pos < end <= chars.len(),
    decreases chars.len() - pos, 1nat,
{
    match primitive_at(text, chars, pos) {
        Ok(done) => Ok(done),
        Err(e) => {
            match e.kind {
                ParseErrorKind::UnknownPrimitive => {
                    if char_at(chars, pos, '(') {
                        parenthesized_agent(text, chars, pos)
                    } else {
                        Err(e)
                    }
                },
                _ => Err(e),
            }
        },
    }
}

/// A choice in brackets, at `pos`, where an opening bracket stands.
fn parenthesized_agent(text: &str, chars: &Vec<char>, pos: usize) -> (res: Result<
    (Expr, usize),
    ParseError,
>)
    requires
        chars@ == text@,
        has_char(chars@, pos as nat, '('),
        primitive_name(text@, pos as nat) is None,
    ensures
        found(res, pos) == spec_simple(text@, pos as nat),
        res matches Ok((_, end)) ==> pos < end <= chars.len(),
    decreases chars.len() - pos, 0nat,
{
    match composition_choice(text, chars, pos + 1) {
        Err(e) => Err(e),
        Ok((expr, end)) => {
            if char_at(chars, end, ')') {
                Ok((expr, end + 1))
            } else {
                Err(ParseError { kind: ParseErrorKind::UnbalancedParen, position: end })
            }
        },
    }
}

/// `seq` at `pos`: simple agents joined by `;`.
fn composition_seq(text: &str, chars: &Vec<char>, pos: usize) -> (res: Result<
    (Expr, usize),
    ParseError,
>)
    requires
        chars@ == text@,
        pos <= chars.len(),
    ensures
        found(res, pos) == spec_seq(text@, pos as nat),
        res matches Ok((_, end)) ==> pos < end <= chars.len(),
    decreases chars.len() - pos, 2nat,
{
    match simple_agent(text, chars, pos) {
        Err(e) => Err(e),
        Ok((agi, end)) => {
            if char_at(chars, end, ';') {
                match composition_seq(text, chars, end + 1) {
                    Err(e) => Err(e),
                    Ok((agii, last)) => Ok(
                        (Expr::BachtAstAgent(";".to_owned(), Box::new(agi), Box::new(agii)), last),
                    ),
                }
            } else {
                Ok((agi, end))
            }
        },
    }
}

/// `para` at `pos`: sequences joined by `||`.
fn composition_para(text: &str, chars: &Vec<char>, pos: usize) -> (res: Result<
    (Expr, usize),
    ParseError,
>)
    requires
        chars@ == text@,
        pos <= chars.len(),
    ensures
        found(res, pos) == spec_para(text@, pos as nat),
        res matches Ok((_, end)) ==> pos < end <= chars.len(),
    decreases chars.len() - pos, 3nat,
{
    match composition_seq(text, chars, pos) {
        Err(e) => Err(e),
        Ok((agi, end)) => {
            if char_at(chars, end, '|') && char_at(chars, end + 1, '|') {
                match composition_para(text, chars, end + 2) {
                    Err(e) => Err(e),
                    Ok((agii, last)) => Ok(
                        (
                            Expr::BachtAstAgent("||".to_owned(), Box::new(agi), Box::new(agii)),
                            last,
                        ),
                    ),
                }
            } else {
                Ok((agi, end))
            }
        },
    }
}

/// `choice` at `pos`: parallel compositions joined by `+`.
fn composition_choice(text: &str, chars: &Vec<char>, pos: usize) -> (res: Result<
    (Expr, usize),
    ParseError,
>)
    requires
        chars@ == text@,
        pos <= chars.len(),
    ensures
        found(res, pos) == spec_choice(text@, pos as nat),
        res matches Ok((_, end)) ==> pos < end <= chars.len(),
    decreases chars.len() - pos, 4nat,
{
    match composition_para(text, chars, pos) {
        Err(e) => Err(e),
        Ok((agi, end)) => {
            if char_at(chars, end, '+') {
                match composition_choice(text, chars, end + 1) {
                    Err(e) => Err(e),
                    Ok((agii, last)) => Ok(
                        (Expr::BachtAstAgent("+".to_owned(), Box::new(agi), Box::new(agii)), last),
                    ),
                }
            } else {
                Ok((agi, end))
            }
        },
    }
}

/// `agent` at `pos`: a choice.
fn agent(text: &str, chars: &Vec<char>, pos: usize) -> (res: Result<(Expr, usize), ParseError>)
    requires
        chars@ == text@,
        pos <= chars.len(),
    ensures
        found(res, pos) == spec_choice(text@, pos as nat),
        res matches Ok((_, end)) ==> pos < end <= chars.len(),
{
    composition_choice(text, chars, pos)
}

/// The agent that the whole of `input` denotes, or what is wrong with the text
/// and where.
pub fn parse_agent(input: &str) -> (res: Result<Expr, ParseError>)
    ensures
        match res {
            Ok(expr) => spec_parse(input@) == Ok::<_, (ParseErrorKind, nat)>(expr@),
            Err(e) => spec_parse(input@) == Err::<crate::model::data::Agent, _>(
                (e.kind, e.position as nat),
            ),
        },
        res matches Ok(expr) ==> expr@.is_written() && expr@.is_runnable()
            && expr@.is_reducible() && !(expr@ is Empty),
        res matches Err(e) ==> e.position <= input@.len(),
{
    let chars = chars_of(input);
    proof {
        lemma_parsed_is_written(input@);
        lemma_error_inside(input@);
    }
    if chars.len() == 0 {
        return Err(ParseError { kind: ParseErrorKind::Empty, position: 0 });
    }
    match agent(input, &chars, 0) {
        Err(e) => Err(e),
        Ok((expr, end)) => {
            if end == chars.len() {
                Ok(expr)
            } else {
                Err(ParseError { kind: ParseErrorKind::Trailing, position: end })
            }
        },
    }
}

/// The agent that the whole of `input` denotes, or what is wrong with the text
/// and where.
pub fn parse(input: &str) -> (res: Result<Expr, ParseError>)
    ensures
        match res {
            Ok(expr) => spec_parse(input@) == Ok::<_, (ParseErrorKind, nat)>(expr@),
            Err(e) => spec_parse(input@) == Err::<crate::model::data::Agent, _>(
                (e.kind, e.position as nat),
            ),
        },
        res matches Ok(expr) ==> expr@.is_written() && expr@.is_runnable()
            && expr@.is_reducible() && !(expr@ is Empty),
        res matches Err(e) ==> e.position <= input@.len(),
{
    parse_agent(input)
}

} // verus!
