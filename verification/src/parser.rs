//! Syntactic and semantic analysis: one pass over the token sequence
//! that records `let` bindings in a table and resolves the operand of
//! the `exit` statement against it, so that the resulting tree holds
//! only a literal integer. Tokens outside the two statement forms are
//! skipped; malformed statements and references to undeclared names
//! stop the whole parse with a descriptive error.

use vstd::prelude::*;

use crate::tokenizer::{view_tokens, SpecToken, Token};

verus! {

/// An expression node: a single integer value, already fully resolved.
#[derive(Debug, PartialEq)]
pub struct NodeExpr {
    pub int_value: i64,
}

/// The root of a successful parse: the operand of the program's exit.
#[derive(Debug, PartialEq)]
pub struct NodeExit {
    pub expr: NodeExpr,
}

/// The mathematical form of a parse failure, with the offending name as
/// a character sequence.
pub enum SpecParseError {
    ExpectedIdentifier,
    ExpectedEquals,
    ExpectedIntLiteral,
    ExpectedOpenParen,
    ExpectedCloseParen,
    InvalidExpression,
    UndefinedVariable(Seq<char>),
}

/// Why a parse stopped: which expectation of the grammar was violated,
/// or which identifier was referenced without a prior binding.
#[derive(Debug, PartialEq)]
pub enum ParseError {
    /// A `let` was not followed by an identifier.
    ExpectedIdentifier,
    /// A binding's identifier was not followed by `=`.
    ExpectedEquals,
    /// A binding's `=` was not followed by an integer literal.
    ExpectedIntLiteral,
    /// `exit` was not followed by `(`.
    ExpectedOpenParen,
    /// The exit operand was not followed by `)`.
    ExpectedCloseParen,
    /// No expression stood between the parentheses of an exit statement.
    InvalidExpression,
    /// An identifier was referenced without a prior `let` binding.
    UndefinedVariable(String),
}

impl View for ParseError {
    type V = SpecParseError;

    open spec fn view(&self) -> SpecParseError {
        match self {
            ParseError::ExpectedIdentifier => SpecParseError::ExpectedIdentifier,
            ParseError::ExpectedEquals => SpecParseError::ExpectedEquals,
            ParseError::ExpectedIntLiteral => SpecParseError::ExpectedIntLiteral,
            ParseError::ExpectedOpenParen => SpecParseError::ExpectedOpenParen,
            ParseError::ExpectedCloseParen => SpecParseError::ExpectedCloseParen,
            ParseError::InvalidExpression => SpecParseError::InvalidExpression,
            ParseError::UndefinedVariable(name) => SpecParseError::UndefinedVariable(name@),
        }
    }
}

impl ParseError {
    /// The text of `message`, over the view of the offending name.
    pub open spec fn spec_message(&self) -> Seq<char> {
        match self {
            ParseError::ExpectedIdentifier => "Expected identifier for variable name."@,
            ParseError::ExpectedEquals => "Expected equals sign after identifier."@,
            ParseError::ExpectedIntLiteral => "Expected an integer after equals sign."@,
            ParseError::ExpectedOpenParen => "Expected an open parenthesis after 'exit'."@,
            ParseError::ExpectedCloseParen => "Expected a close parenthesis after expression."@,
            ParseError::InvalidExpression => "Expected an expression inside the exit statement."@,
            ParseError::UndefinedVariable(name) => "Undefined variable: "@ + name@,
        }
    }

    /// A human-readable description of the failure.
    pub fn message(&self) -> (m: String)
        ensures
            m@ == self.spec_message(),
    {
        match self {
            ParseError::ExpectedIdentifier => String::from_str(
                "Expected identifier for variable name.",
            ),
            ParseError::ExpectedEquals => String::from_str("Expected equals sign after identifier."),
            ParseError::ExpectedIntLiteral => String::from_str(
                "Expected an integer after equals sign.",
            ),
            ParseError::ExpectedOpenParen => String::from_str(
                "Expected an open parenthesis after 'exit'.",
            ),
            ParseError::ExpectedCloseParen => String::from_str(
                "Expected a close parenthesis after expression.",
            ),
            ParseError::InvalidExpression => String::from_str(
                "Expected an expression inside the exit statement.",
            ),
            ParseError::UndefinedVariable(name) => {
                let mut m = String::from_str("Undefined variable: ");
                m.append(name.as_str());
                m
            },
        }
    }
}

/// The binding table that a sequence of `(name, value)` entries builds
/// up in order: a later entry for the same name overwrites the earlier.
pub open spec fn table_model(entries: Seq<(String, i64)>) -> Map<Seq<char>, int>
    decreases entries.len(),
{
    if entries.len() == 0 {
        Map::empty()
    } else {
        table_model(entries.drop_last()).insert(entries.last().0@, entries.last().1 as int)
    }
}

/// Finds the value most recently bound to `name`, if any.
fn lookup(entries: &Vec<(String, i64)>, name: &String) -> (r: Option<i64>)
    ensures
        match r {
            Some(value) => table_model(entries@).contains_key(name@) && table_model(entries@)[name@]
                == value as int,
            None => !table_model(entries@).contains_key(name@),
        },
{
    let mut j = entries.len();
    proof {
        assert(entries@.take(j as int) =~= entries@);
    }
    while j > 0
        invariant
            j <= entries@.len(),
            table_model(entries@).contains_key(name@) == table_model(
                entries@.take(j as int),
            ).contains_key(name@),
            table_model(entries@).contains_key(name@) ==> table_model(entries@)[name@]
                == table_model(entries@.take(j as int))[name@],
        decreases j,
    {
        proof {
            assert(entries@.take(j as int).drop_last() =~= entries@.take(j - 1));
            assert(entries@.take(j as int).last() == entries@[j - 1]);
        }
        if entries[j - 1].0 == *name {
            return Some(entries[j - 1].1);
        }
        j = j - 1;
    }
    proof {
        assert(entries@.take(0) =~= Seq::<(String, i64)>::empty());
    }
    None
}

/// The outcome of the binding-assignment construct at the head of `t`
/// (`t[0]` is the `Let` token): the bound name and value, or the first
/// expectation it violates.
pub open spec fn spec_binding(t: Seq<SpecToken>) -> Result<(Seq<char>, int), SpecParseError> {
    if !(t.len() >= 2 && t[1] is Identifier) {
        Err(SpecParseError::ExpectedIdentifier)
    } else if !(t.len() >= 3 && t[2] is Equals) {
        Err(SpecParseError::ExpectedEquals)
    } else if !(t.len() >= 4 && t[3] is IntLiteral) {
        Err(SpecParseError::ExpectedIntLiteral)
    } else {
        Ok((t[1]->Identifier_0, t[3]->IntLiteral_0))
    }
}

/// The outcome of the exit statement at the head of `t` (`t[0]` is the
/// `Exit` token): the resolved operand value, or the first violation.
/// A reference to an unbound identifier fails before the closing
/// parenthesis is checked; a missing expression fails after it.
pub open spec fn spec_exit_args(t: Seq<SpecToken>, table: Map<Seq<char>, int>) -> Result<
    int,
    SpecParseError,
> {
    if !(t.len() >= 2 && t[1] is OpenParen) {
        Err(SpecParseError::ExpectedOpenParen)
    } else if t.len() >= 3 && t[2] is IntLiteral {
        if t.len() >= 4 && t[3] is CloseParen {
            Ok(t[2]->IntLiteral_0)
        } else {
            Err(SpecParseError::ExpectedCloseParen)
        }
    } else if t.len() >= 3 && t[2] is Identifier {
        let name = t[2]->Identifier_0;
        if !table.contains_key(name) {
            Err(SpecParseError::UndefinedVariable(name))
        } else if t.len() >= 4 && t[3] is CloseParen {
            Ok(table[name])
        } else {
            Err(SpecParseError::ExpectedCloseParen)
        }
    } else {
        if t.len() >= 3 && t[2] is CloseParen {
            Err(SpecParseError::InvalidExpression)
        } else {
            Err(SpecParseError::ExpectedCloseParen)
        }
    }
}

/// What parsing the tokens `toks` yields, starting from the binding
/// table `table` with `found` as the exit value seen so far: the status
/// code of the program's exit statement, `0` when no exit statement
/// appears, or the first error. Tokens outside the two statement forms
/// are skipped; a later exit statement overwrites an earlier one.
pub open spec fn spec_parse(
    toks: Seq<SpecToken>,
    table: Map<Seq<char>, int>,
    found: Option<int>,
) -> Result<int, SpecParseError>
    decreases toks.len(),
{
    if toks.len() == 0 {
        Ok(
            match found {
                Some(value) => value,
                None => 0,
            },
        )
    } else {
        match toks[0] {
            SpecToken::Let => match spec_binding(toks) {
                Ok(binding) => spec_parse(toks.skip(4), table.insert(binding.0, binding.1), found),
                Err(e) => Err(e),
            },
            SpecToken::Exit => match spec_exit_args(toks, table) {
                Ok(value) => spec_parse(toks.skip(4), table, Some(value)),
                Err(e) => Err(e),
            },
            _ => spec_parse(toks.skip(1), table, found),
        }
    }
}

/// The mathematical form of what `parse` returns.
pub open spec fn parse_result_model(r: Result<NodeExit, ParseError>) -> Result<
    int,
    SpecParseError,
> {
    match r {
        Ok(node) => Ok(node.expr.int_value as int),
        Err(e) => Err(e@),
    }
}

spec fn exit_model(o: Option<NodeExit>) -> Option<int> {
    match o {
        Some(node) => Some(node.expr.int_value as int),
        None => None,
    }
}

/// Parses a list of tokens into the one node structure of the language,
/// building the binding table as a side effect.
pub struct Parser {
    tokens: Vec<Token>,
    index: usize,
    symbol_table: Vec<(String, i64)>,
}

impl Parser {
    /// The position cursor never runs past the end of the tokens.
    pub closed spec fn wf(self) -> bool {
        self.index <= self.tokens@.len()
    }

    /// The views of all tokens the parser was built over.
    pub closed spec fn toks(self) -> Seq<SpecToken> {
        view_tokens(self.tokens@)
    }

    /// The current position of the cursor.
    pub closed spec fn position(self) -> int {
        self.index as int
    }

    /// The bindings recorded so far.
    pub closed spec fn bindings(self) -> Map<Seq<char>, int> {
        table_model(self.symbol_table@)
    }

    /// The tokens not yet consumed.
    pub open spec fn remaining(self) -> Seq<SpecToken> {
        self.toks().skip(self.position())
    }

    /// Prepares a parser over `tokens`, with the cursor at the start and
    /// no bindings.
    pub fn new(tokens: Vec<Token>) -> (p: Parser)
        ensures
            p.wf(),
            p.toks() == view_tokens(tokens@),
            p.position() == 0,
            p.bindings() == Map::<Seq<char>, int>::empty(),
    {
        let p = Parser { tokens, index: 0, symbol_table: Vec::new() };
        proof {
            assert(p.symbol_table@.len() == 0);
        }
        p
    }

    /// The token `ahead` positions past the cursor, without consuming.
    fn peek(&self, ahead: usize) -> (r: Option<Token>)
        requires
            self.position() + ahead <= usize::MAX,
        ensures
            match r {
                Some(t) => self.position() + ahead < self.toks().len() && t@ == self.toks()[
                    self.position() + ahead
                ],
                None => self.position() + ahead >= self.toks().len(),
            },
    {
        if self.index + ahead >= self.tokens.len() {
            None
        } else {
            Some(self.tokens[self.index + ahead].clone())
        }
    }

    /// The token under the cursor, without consuming.
    fn peek_current(&self) -> (r: Option<Token>)
        ensures
            match r {
                Some(t) => self.position() < self.toks().len() && t@ == self.toks()[self.position()],
                None => self.position() >= self.toks().len(),
            },
    {
        self.peek(0)
    }

    /// Consumes the token under the cursor and advances past it.
    fn consume(&mut self) -> (t: Token)
        requires
            old(self).position() < old(self).toks().len(),
        ensures
            final(self).toks() == old(self).toks(),
            final(self).bindings() == old(self).bindings(),
            final(self).position() == old(self).position() + 1,
            t@ == old(self).toks()[old(self).position()],
    {
        proof {
            assert(self.toks().len() == self.tokens@.len());
            assert(self.tokens.len() == self.tokens@.len());
        }
        self.index = self.index + 1;
        self.tokens[self.index - 1].clone()
    }

    /// Consumes one `let name = literal` construct and records the
    /// binding, or stops at the first token that breaks its shape.
    fn parse_assignment(&mut self) -> (r: Result<(), ParseError>)
        requires
            old(self).wf(),
            old(self).position() < old(self).toks().len(),
            old(self).toks()[old(self).position()] is Let,
        ensures
            final(self).wf(),
            final(self).toks() == old(self).toks(),
            ({
                let t = old(self).toks().skip(old(self).position());
                match r {
                    Ok(_) => spec_binding(t) matches Ok(binding) && final(self).position() == old(
                        self,
                    ).position() + 4 && final(self).bindings() == old(self).bindings().insert(
                        binding.0,
                        binding.1,
                    ),
                    Err(e) => spec_binding(t) == Err::<(Seq<char>, int), SpecParseError>(e@),
                }
            }),
    {
        let ghost t = old(self).toks().skip(old(self).position());
        self.consume();
        if self.index >= self.tokens.len() {
            return Err(ParseError::ExpectedIdentifier);
        }
        let var_name = match self.consume() {
            Token::Identifier(name) => name,
            _ => {
                return Err(ParseError::ExpectedIdentifier);
            },
        };
        if self.index >= self.tokens.len() {
            return Err(ParseError::ExpectedEquals);
        }
        match self.consume() {
            Token::Equals => (),
            _ => {
                return Err(ParseError::ExpectedEquals);
            },
        }
        if self.index >= self.tokens.len() {
            return Err(ParseError::ExpectedIntLiteral);
        }
        let value = match self.consume() {
            Token::IntLiteral(value) => value,
            _ => {
                return Err(ParseError::ExpectedIntLiteral);
            },
        };
        let ghost entries0 = self.symbol_table@;
        self.symbol_table.push((var_name, value));
        proof {
            assert(self.symbol_table@.drop_last() =~= entries0);
        }
        Ok(())
    }

    /// Consumes one expression token: a literal taken verbatim, or an
    /// identifier resolved against the binding table. Any other token is
    /// left in place and yields no expression.
    fn parse_expression(&mut self) -> (r: Result<Option<NodeExpr>, ParseError>)
        requires
            old(self).wf(),
        ensures
            final(self).wf(),
            final(self).toks() == old(self).toks(),
            final(self).bindings() == old(self).bindings(),
            ({
                let t = old(self).toks();
                let i = old(self).position();
                match r {
                    Ok(opt) => match opt {
                        Some(e) => i < t.len() && final(self).position() == i + 1 && ((t[i]
                            is IntLiteral && e.int_value as int == t[i]->IntLiteral_0) || (t[i]
                            is Identifier && old(self).bindings().contains_key(t[i]->Identifier_0)
                            && e.int_value as int == old(self).bindings()[t[i]->Identifier_0])),
                        None => final(self).position() == i && (i >= t.len() || !(t[i]
                            is IntLiteral || t[i] is Identifier)),
                    },
                    Err(e) => i < t.len() && t[i] is Identifier && !old(
                        self,
                    ).bindings().contains_key(t[i]->Identifier_0) && e@
                        == SpecParseError::UndefinedVariable(t[i]->Identifier_0),
                }
            }),
    {
        match self.peek_current() {
            Some(Token::IntLiteral(value)) => {
                self.consume();
                Ok(Some(NodeExpr { int_value: value }))
            },
            Some(Token::Identifier(name)) => {
                self.consume();
                match lookup(&self.symbol_table, &name) {
                    Some(value) => Ok(Some(NodeExpr { int_value: value })),
                    None => Err(ParseError::UndefinedVariable(name)),
                }
            },
            _ => Ok(None),
        }
    }

    /// Parses the whole token sequence into the program's exit node, as
    /// `spec_parse` describes: the last exit statement wins, and a
    /// default node with status code `0` stands in when none appears.
    pub fn parse(&mut self) -> (r: Result<NodeExit, ParseError>)
        requires
            old(self).wf(),
        ensures
            parse_result_model(r) == spec_parse(
                old(self).remaining(),
                old(self).bindings(),
                None,
            ),
    {
        let mut exit_node: Option<NodeExit> = None;
        while self.index < self.tokens.len()
            invariant
                self.wf(),
                self.toks() == old(self).toks(),
                0 <= self.position() <= self.toks().len(),
                spec_parse(self.remaining(), self.bindings(), exit_model(exit_node)) == spec_parse(
                    old(self).remaining(),
                    old(self).bindings(),
                    None,
                ),
            decreases self.toks().len() - self.position(),
        {
            let ghost t = self.remaining();
            let ghost pos0 = self.position();
            let ghost table0 = self.bindings();
            let ghost found0 = exit_model(exit_node);
            proof {
                assert(t.len() == self.toks().len() - pos0);
                assert(t[0] == self.toks()[pos0]);
            }
            let token = self.peek_current().unwrap();
            match token {
                Token::Let => {
                    match self.parse_assignment() {
                        Ok(_) => {
                            proof {
                                assert(t.skip(4) =~= self.toks().skip(self.position()));
                            }
                        },
                        Err(e) => {
                            return Err(e);
                        },
                    }
                },
                Token::Exit => {
                    self.consume();
                    if self.index >= self.tokens.len() {
                        return Err(ParseError::ExpectedOpenParen);
                    }
                    proof {
                        assert(t[1] == self.toks()[pos0 + 1]);
                    }
                    match self.consume() {
                        Token::OpenParen => (),
                        _ => {
                            return Err(ParseError::ExpectedOpenParen);
                        },
                    }
                    proof {
                        if pos0 + 2 < self.toks().len() {
                            assert(t[2] == self.toks()[pos0 + 2]);
                        }
                    }
                    let expr_opt = match self.parse_expression() {
                        Ok(opt) => opt,
                        Err(e) => {
                            return Err(e);
                        },
                    };
                    if self.index >= self.tokens.len() {
                        return Err(ParseError::ExpectedCloseParen);
                    }
                    proof {
                        assert(t[self.position() - pos0] == self.toks()[self.position()]);
                    }
                    match self.consume() {
                        Token::CloseParen => (),
                        _ => {
                            return Err(ParseError::ExpectedCloseParen);
                        },
                    }
                    match expr_opt {
                        Some(e) => {
                            exit_node = Some(NodeExit { expr: e });
                            proof {
                                assert(spec_exit_args(t, table0) == Ok::<int, SpecParseError>(
                                    e.int_value as int,
                                ));
                                assert(t.skip(4) =~= self.toks().skip(self.position()));
                            }
                        },
                        None => {
                            return Err(ParseError::InvalidExpression);
                        },
                    }
                },
                _ => {
                    self.consume();
                    proof {
                        assert(t.skip(1) =~= self.toks().skip(self.position()));
                    }
                },
            }
        }
        proof {
            assert(self.remaining().len() == 0);
        }
        match exit_node {
            Some(node) => Ok(node),
            None => Ok(NodeExit { expr: NodeExpr { int_value: 0 } }),
        }
    }
}

} // verus!
