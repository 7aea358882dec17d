//! The syntax tree of agents.

use crate::text::same_text;
use vstd::prelude::*;

verus! {

/// An agent. A primitive holds its name and its token; a composed agent holds
/// its operator and its two operands.
#[derive(Debug, PartialEq)]
pub enum Expr {
    /// The agent that has nothing left to do.
    BachtAstEmptyAgent(),
    /// `tell`, `ask`, `get` or `nask` of a token.
    BachtAstPrimitive(String, String),
    /// Two agents joined by `;`, `||` or `+`.
    BachtAstAgent(String, Box<Expr>, Box<Expr>),
}

/// An agent as a mathematical value: the tree with each piece of text taken by
/// its characters.
pub enum Agent {
    Empty,
    Prim(Seq<char>, Seq<char>),
    Op(Seq<char>, Box<Agent>, Box<Agent>),
}

impl Expr {
    /// The tree that this expression stands for.
    pub open spec fn agent(&self) -> Agent
        decreases self,
    {
        match self {
            Expr::BachtAstEmptyAgent() => Agent::Empty,
            Expr::BachtAstPrimitive(name, token) => Agent::Prim(name@, token@),
            Expr::BachtAstAgent(op, left, right) => Agent::Op(
                op@,
                Box::new((**left).agent()),
                Box::new((**right).agent()),
            ),
        }
    }

    /// Says whether the agent can be reduced: its operators and primitives are
    /// known ones and the empty agent is no part of it.
    pub fn runnable(&self) -> (res: bool)
        ensures
            res == self@.is_runnable(),
        decreases self@.nodes(),
    {
        match self {
            Expr::BachtAstEmptyAgent() => false,
            Expr::BachtAstPrimitive(name, _) => {
                same_text(name.as_str(), "tell") || same_text(name.as_str(), "ask") || same_text(
                    name.as_str(),
                    "get",
                ) || same_text(name.as_str(), "nask")
            },
            Expr::BachtAstAgent(op, left, right) => {
                let known = same_text(op.as_str(), ";") || same_text(op.as_str(), "||")
                    || same_text(op.as_str(), "+");
                known && left.runnable() && right.runnable()
            },
        }
    }

    /// Says whether the agent can be taken apart for a step: its operators are
    /// known ones and the empty agent is no part of it.
    pub fn reducible(&self) -> (res: bool)
        ensures
            res == self@.is_reducible(),
        decreases self@.nodes(),
    {
        match self {
            Expr::BachtAstEmptyAgent() => false,
            Expr::BachtAstPrimitive(_, _) => true,
            Expr::BachtAstAgent(op, left, right) => {
                let known = same_text(op.as_str(), ";") || same_text(op.as_str(), "||")
                    || same_text(op.as_str(), "+");
                known && left.reducible() && right.reducible()
            },
        }
    }
}

impl Clone for Expr {
    /// A copy of the agent.
    fn clone(&self) -> (res: Self)
        ensures
            res@ == self@,
        decreases self@.nodes(),
    {
        match self {
            Expr::BachtAstEmptyAgent() => Expr::BachtAstEmptyAgent(),
            Expr::BachtAstPrimitive(name, token) => Expr::BachtAstPrimitive(
                name.clone(),
                token.clone(),
            ),
            Expr::BachtAstAgent(op, left, right) => Expr::BachtAstAgent(
                op.clone(),
                Box::new((**left).clone()),
                Box::new((**right).clone()),
            ),
        }
    }
}

impl View for Expr {
    type V = Agent;

    open spec fn view(&self) -> Agent {
        self.agent()
    }
}

/// The names of the four primitives.
pub open spec fn is_primitive_name(name: Seq<char>) -> bool {
    name == "tell"@ || name == "ask"@ || name == "get"@ || name == "nask"@
}

/// The three operators: sequence, parallel composition and choice.
pub open spec fn is_operator(op: Seq<char>) -> bool {
    op == ";"@ || op == "||"@ || op == "+"@
}

/// A character that may start a token: a lower-case letter.
pub open spec fn is_token_start(c: char) -> bool {
    'a' <= c && c <= 'z'
}

/// A character that may follow in a token: a letter, a digit or an underscore.
pub open spec fn is_token_char(c: char) -> bool {
    ('a' <= c && c <= 'z') || ('A' <= c && c <= 'Z') || ('0' <= c && c <= '9') || c == '_'
}

/// A token: a lower-case letter, then letters, digits and underscores.
pub open spec fn is_token(s: Seq<char>) -> bool {
    &&& s.len() >= 1
    &&& is_token_start(s[0])
    &&& forall|i: int| 1 <= i < s.len() ==> is_token_char(#[trigger] s[i])
}

impl Agent {
    /// An agent that can be reduced: a tree of known operators over known
    /// primitives, with the empty agent nowhere in it.
    pub open spec fn is_runnable(self) -> bool
        decreases self,
    {
        match self {
            Agent::Empty => false,
            Agent::Prim(name, _) => is_primitive_name(name),
            Agent::Op(op, left, right) => is_operator(op) && left.is_runnable()
                && right.is_runnable(),
        }
    }

    /// An agent that can be taken apart for a step: a tree of known operators
    /// over primitives of any name, with the empty agent nowhere in it.
    pub open spec fn is_reducible(self) -> bool
        decreases self,
    {
        match self {
            Agent::Empty => false,
            Agent::Prim(_, _) => true,
            Agent::Op(op, left, right) => is_operator(op) && left.is_reducible()
                && right.is_reducible(),
        }
    }

    /// A runnable agent can be taken apart for a step.
    pub proof fn lemma_runnable_is_reducible(self)
        requires
            self.is_runnable(),
        ensures
            self.is_reducible(),
        decreases self,
    {
        match self {
            Agent::Op(_, left, right) => {
                left.lemma_runnable_is_reducible();
                right.lemma_runnable_is_reducible();
            },
            _ => {},
        }
    }

    /// An agent that a text can denote: a runnable agent whose tokens obey the
    /// lexical rule.
    pub open spec fn is_written(self) -> bool
        decreases self,
    {
        match self {
            Agent::Empty => false,
            Agent::Prim(name, token) => is_primitive_name(name) && is_token(token),
            Agent::Op(op, left, right) => is_operator(op) && left.is_written()
                && right.is_written(),
        }
    }

    /// An agent that a text can denote can be run.
    pub proof fn lemma_written_is_runnable(self)
        requires
            self.is_written(),
        ensures
            self.is_runnable(),
        decreases self,
    {
        match self {
            Agent::Op(_, left, right) => {
                left.lemma_written_is_runnable();
                right.lemma_written_is_runnable();
            },
            _ => {},
        }
    }

    /// Says whether a primitive of the agent has the name `name`.
    pub open spec fn mentions(self, name: Seq<char>) -> bool
        decreases self,
    {
        match self {
            Agent::Empty => false,
            Agent::Prim(own, _) => own == name,
            Agent::Op(_, left, right) => left.mentions(name) || right.mentions(name),
        }
    }

    /// The number of nodes of the tree.
    pub open spec fn nodes(self) -> nat
        decreases self,
    {
        match self {
            Agent::Empty => 1,
            Agent::Prim(_, _) => 1,
            Agent::Op(_, left, right) => 1 + left.nodes() + right.nodes(),
        }
    }

    /// Every tree has a node.
    pub proof fn lemma_nodes_positive(self)
        ensures
            self.nodes() >= 1,
    {
    }

    /// The number of primitives in the agent.
    pub open spec fn primitives(self) -> nat
        decreases self,
    {
        match self {
            Agent::Empty => 0,
            Agent::Prim(_, _) => 1,
            Agent::Op(_, left, right) => left.primitives() + right.primitives(),
        }
    }
}

/// The texts of the names and of the operators, character by character. No
/// two names and no two operators are the same text.
pub proof fn lemma_names_and_operators()
    ensures
        "tell"@ == seq!['t', 'e', 'l', 'l'],
        "ask"@ == seq!['a', 's', 'k'],
        "get"@ == seq!['g', 'e', 't'],
        "nask"@ == seq!['n', 'a', 's', 'k'],
        ";"@ == seq![';'],
        "||"@ == seq!['|', '|'],
        "+"@ == seq!['+'],
        "tell"@ != "ask"@ && "tell"@ != "get"@ && "tell"@ != "nask"@,
        "ask"@ != "get"@ && "ask"@ != "nask"@ && "get"@ != "nask"@,
        ";"@ != "||"@ && ";"@ != "+"@ && "||"@ != "+"@,
{
    reveal_strlit("tell");
    reveal_strlit("ask");
    reveal_strlit("get");
    reveal_strlit("nask");
    reveal_strlit(";");
    reveal_strlit("||");
    reveal_strlit("+");
    assert("tell"@ =~= seq!['t', 'e', 'l', 'l']);
    assert("ask"@ =~= seq!['a', 's', 'k']);
    assert("get"@ =~= seq!['g', 'e', 't']);
    assert("nask"@ =~= seq!['n', 'a', 's', 'k']);
    assert(";"@ =~= seq![';']);
    assert("||"@ =~= seq!['|', '|']);
    assert("+"@ =~= seq!['+']);
    assert("tell"@[0] == 't' && "nask"@[0] == 'n' && "ask"@[0] == 'a' && "get"@[0] == 'g');
    assert(";"@[0] == ';' && "+"@[0] == '+' && "||"@[0] == '|');
}

} // verus!
