//! Lexical analysis: a single left-to-right pass over the source text
//! that groups non-delimiter characters into an accumulator and flushes
//! it at every delimiter, classifying the flushed text as a keyword, an
//! integer literal, or an identifier. The lexer itself never fails:
//! text that fits no other class becomes an identifier.

use vstd::prelude::*;

use crate::text::{
    chars_to_string, is_i64_literal, parse_i64, spec_literal_value, spec_trim, string_to_chars,
    trim_chars,
};

verus! {

/// The mathematical form of a token: what a `Token` means, with text as
/// a character sequence and numbers as unbounded integers.
pub enum SpecToken {
    /// The `exit` keyword.
    Exit,
    /// An integer literal.
    IntLiteral(int),
    /// The `;` symbol.
    Semicolon,
    /// The `(` symbol.
    OpenParen,
    /// The `)` symbol.
    CloseParen,
    /// The `let` keyword.
    Let,
    /// The `=` symbol.
    Equals,
    /// A variable name such as `x`.
    Identifier(Seq<char>),
}

/// The types of tokens that the lexer produces.
#[derive(Debug, PartialEq)]
pub enum Token {
    /// The `exit` keyword.
    Exit,
    /// An integer literal.
    IntLiteral(i64),
    /// The `;` symbol.
    Semicolon,
    /// The `(` symbol.
    OpenParen,
    /// The `)` symbol.
    CloseParen,
    /// The `let` keyword.
    Let,
    /// The `=` symbol.
    Equals,
    /// A variable name such as `x`.
    Identifier(String),
}

impl View for Token {
    type V = SpecToken;

    open spec fn view(&self) -> SpecToken {
        match self {
            Token::Exit => SpecToken::Exit,
            Token::IntLiteral(value) => SpecToken::IntLiteral(*value as int),
            Token::Semicolon => SpecToken::Semicolon,
            Token::OpenParen => SpecToken::OpenParen,
            Token::CloseParen => SpecToken::CloseParen,
            Token::Let => SpecToken::Let,
            Token::Equals => SpecToken::Equals,
            Token::Identifier(name) => SpecToken::Identifier(name@),
        }
    }
}

impl Clone for Token {
    fn clone(&self) -> (t: Self)
        ensures
            t@ == self@,
    {
        match self {
            Token::Exit => Token::Exit,
            Token::IntLiteral(value) => Token::IntLiteral(*value),
            Token::Semicolon => Token::Semicolon,
            Token::OpenParen => Token::OpenParen,
            Token::CloseParen => Token::CloseParen,
            Token::Let => Token::Let,
            Token::Equals => Token::Equals,
            Token::Identifier(name) => Token::Identifier(name.clone()),
        }
    }
}

/// The views of a token sequence.
pub open spec fn view_tokens(tokens: Seq<Token>) -> Seq<SpecToken> {
    tokens.map_values(|t: Token| t@)
}

/// The characters at which the lexer flushes its accumulator.
pub open spec fn spec_is_delimiter(c: char) -> bool {
    c == ' ' || c == ';' || c == '(' || c == ')' || c == '=' || c == '\n'
}

/// How a flushed accumulator is classified: the two keywords first, then
/// integer literals, and everything else as a trimmed identifier.
pub open spec fn spec_classify(buf: Seq<char>) -> SpecToken {
    if buf == "exit"@ {
        SpecToken::Exit
    } else if buf == "let"@ {
        SpecToken::Let
    } else if is_i64_literal(buf) {
        SpecToken::IntLiteral(spec_literal_value(buf))
    } else {
        SpecToken::Identifier(spec_trim(buf))
    }
}

/// The token a flushed accumulator contributes: nothing when it is empty.
pub open spec fn spec_flush(buf: Seq<char>) -> Seq<SpecToken> {
    if buf.len() == 0 {
        Seq::empty()
    } else {
        seq![spec_classify(buf)]
    }
}

/// The token a delimiter itself contributes: punctuation emits its
/// dedicated token, whitespace emits nothing.
pub open spec fn spec_punctuation(c: char) -> Seq<SpecToken> {
    if c == ';' {
        seq![SpecToken::Semicolon]
    } else if c == '(' {
        seq![SpecToken::OpenParen]
    } else if c == ')' {
        seq![SpecToken::CloseParen]
    } else if c == '=' {
        seq![SpecToken::Equals]
    } else {
        Seq::empty()
    }
}

/// The tokens of `src` when the accumulator already holds `buf`. The end
/// of the input acts as one final implicit delimiter.
pub open spec fn spec_lex(src: Seq<char>, buf: Seq<char>) -> Seq<SpecToken>
    decreases src.len(),
{
    if src.len() == 0 {
        spec_flush(buf)
    } else if spec_is_delimiter(src[0]) {
        spec_flush(buf) + spec_punctuation(src[0]) + spec_lex(src.drop_first(), Seq::empty())
    } else {
        spec_lex(src.drop_first(), buf.push(src[0]))
    }
}

/// The token sequence of a whole source text.
pub open spec fn tokens_of(src: Seq<char>) -> Seq<SpecToken> {
    spec_lex(src, Seq::empty())
}

/// A run of non-delimiter characters only grows the accumulator.
pub proof fn lemma_lex_accumulates(word: Seq<char>, rest: Seq<char>, buf: Seq<char>)
    requires
        forall|i: int| 0 <= i < word.len() ==> !spec_is_delimiter(word[i]),
    ensures
        spec_lex(word + rest, buf) == spec_lex(rest, buf + word),
    decreases word.len(),
{
    if word.len() == 0 {
        assert(word + rest =~= rest);
        assert(buf + word =~= buf);
    } else {
        assert((word + rest)[0] == word[0]);
        assert((word + rest).drop_first() =~= word.drop_first() + rest);
        assert(forall|i: int|
            0 <= i < word.drop_first().len() ==> !spec_is_delimiter(word.drop_first()[i]));
        lemma_lex_accumulates(word.drop_first(), rest, buf.push(word[0]));
        assert(buf.push(word[0]) + word.drop_first() =~= buf + word);
    }
}

/// `name` lexes as one identifier token standing for itself: it is
/// non-empty, free of delimiters, not a keyword, not an integer
/// literal, and carries no surrounding whitespace.
pub open spec fn is_identifier_word(name: Seq<char>) -> bool {
    &&& name.len() > 0
    &&& (forall|i: int| 0 <= i < name.len() ==> !spec_is_delimiter(name[i]))
    &&& name != "exit"@
    &&& name != "let"@
    &&& !is_i64_literal(name)
    &&& spec_trim(name) == name
}

proof fn lemma_keywords_hold_no_delimiter()
    ensures
        forall|i: int| 0 <= i < "exit"@.len() ==> !spec_is_delimiter(#[trigger] "exit"@[i]),
        forall|i: int| 0 <= i < "let"@.len() ==> !spec_is_delimiter(#[trigger] "let"@[i]),
{
    reveal_strlit("exit");
    reveal_strlit("let");
    assert('e' as int == 101 && 'x' as int == 120 && 'i' as int == 105 && 't' as int == 116 && 'l'
        as int == 108 && ' ' as int == 32 && ';' as int == 59 && '(' as int == 40 && ')' as int
        == 41 && '=' as int == 61 && '\n' as int == 10);
}

/// Lexing `exit(OP);`, for any operand word `OP` free of delimiters,
/// yields the exit-call token shape around the classification of `OP`.
pub proof fn lemma_lex_exit_call(operand: Seq<char>)
    requires
        operand.len() > 0,
        forall|i: int| 0 <= i < operand.len() ==> !spec_is_delimiter(operand[i]),
    ensures
        spec_lex("exit("@ + operand + ");"@, Seq::empty()) == seq![
            SpecToken::Exit,
            SpecToken::OpenParen,
            spec_classify(operand),
            SpecToken::CloseParen,
            SpecToken::Semicolon,
        ],
{
    reveal_strlit("exit(");
    reveal_strlit("exit");
    reveal_strlit("(");
    reveal_strlit(");");
    reveal_strlit(";");
    lemma_keywords_hold_no_delimiter();
    let word = "exit"@;
    let src = "exit("@ + operand + ");"@;
    let rest0 = "("@ + operand + ");"@;
    assert(src =~= word + rest0);
    lemma_lex_accumulates(word, rest0, Seq::<char>::empty());
    assert(Seq::<char>::empty() + word =~= word);
    assert(spec_is_delimiter(rest0[0]));
    assert(spec_classify(word) == SpecToken::Exit);
    assert(spec_flush(word) =~= seq![SpecToken::Exit]);
    assert(spec_punctuation('(') =~= seq![SpecToken::OpenParen]);
    let rest1 = operand + ");"@;
    assert(rest0.drop_first() =~= rest1);
    lemma_lex_accumulates(operand, ");"@, Seq::<char>::empty());
    assert(Seq::<char>::empty() + operand =~= operand);
    assert(spec_is_delimiter(");"@[0]));
    assert(spec_flush(operand) =~= seq![spec_classify(operand)]);
    assert(spec_punctuation(')') =~= seq![SpecToken::CloseParen]);
    assert(");"@.drop_first() =~= ";"@);
    assert(spec_is_delimiter(";"@[0]));
    assert(";"@.drop_first() =~= Seq::<char>::empty());
    assert(spec_lex(Seq::<char>::empty(), Seq::<char>::empty()) =~= Seq::<SpecToken>::empty());
    assert(spec_lex(";"@, Seq::<char>::empty()) =~= seq![SpecToken::Semicolon]);
    assert(spec_lex(");"@, operand) =~= seq![
        spec_classify(operand),
        SpecToken::CloseParen,
        SpecToken::Semicolon,
    ]);
    assert(spec_lex(rest0, word) =~= seq![
        SpecToken::Exit,
        SpecToken::OpenParen,
        spec_classify(operand),
        SpecToken::CloseParen,
        SpecToken::Semicolon,
    ]);
    assert(spec_lex(src, Seq::empty()) =~= seq![
        SpecToken::Exit,
        SpecToken::OpenParen,
        spec_classify(operand),
        SpecToken::CloseParen,
        SpecToken::Semicolon,
    ]);
}

/// Lexing `let NAME = LIT;` followed by anything else yields the
/// binding token shape, then the tokens of the rest.
pub proof fn lemma_lex_binding(name: Seq<char>, lit: Seq<char>, rest: Seq<char>)
    requires
        is_identifier_word(name),
        lit.len() > 0,
        forall|i: int| 0 <= i < lit.len() ==> !spec_is_delimiter(lit[i]),
    ensures
        spec_lex("let "@ + name + " = "@ + lit + ";"@ + rest, Seq::empty()) == seq![
            SpecToken::Let,
            SpecToken::Identifier(name),
            SpecToken::Equals,
            spec_classify(lit),
            SpecToken::Semicolon,
        ] + spec_lex(rest, Seq::empty()),
{
    reveal_strlit("let ");
    reveal_strlit("let");
    reveal_strlit("exit");
    reveal_strlit(" = ");
    reveal_strlit("= ");
    reveal_strlit("=");
    reveal_strlit(" ");
    reveal_strlit(";");
    lemma_keywords_hold_no_delimiter();
    let word = "let"@;
    let src = "let "@ + name + " = "@ + lit + ";"@ + rest;
    let rest0 = " "@ + name + " = "@ + lit + ";"@ + rest;
    assert(src =~= word + rest0);
    lemma_lex_accumulates(word, rest0, Seq::<char>::empty());
    assert(Seq::<char>::empty() + word =~= word);
    assert(spec_is_delimiter(rest0[0]));
    assert(spec_classify(word) == SpecToken::Let);
    assert(spec_flush(word) =~= seq![SpecToken::Let]);
    assert(spec_punctuation(' ') =~= Seq::<SpecToken>::empty());
    let rest1 = name + (" = "@ + lit + ";"@ + rest);
    assert(rest0.drop_first() =~= rest1);
    lemma_lex_accumulates(name, " = "@ + lit + ";"@ + rest, Seq::<char>::empty());
    assert(Seq::<char>::empty() + name =~= name);
    assert(spec_is_delimiter((" = "@ + lit + ";"@ + rest)[0]));
    assert(spec_classify(name) == SpecToken::Identifier(name));
    assert(spec_flush(name) =~= seq![SpecToken::Identifier(name)]);
    let rest2 = "= "@ + lit + ";"@ + rest;
    assert((" = "@ + lit + ";"@ + rest).drop_first() =~= rest2);
    assert(spec_is_delimiter(rest2[0]));
    assert(spec_punctuation('=') =~= seq![SpecToken::Equals]);
    assert(spec_flush(Seq::<char>::empty()) =~= Seq::<SpecToken>::empty());
    let rest3 = " "@ + lit + ";"@ + rest;
    assert(rest2.drop_first() =~= rest3);
    assert(spec_is_delimiter(rest3[0]));
    let rest4 = lit + (";"@ + rest);
    assert(rest3.drop_first() =~= rest4);
    lemma_lex_accumulates(lit, ";"@ + rest, Seq::<char>::empty());
    assert(Seq::<char>::empty() + lit =~= lit);
    assert(spec_is_delimiter((";"@ + rest)[0]));
    assert(spec_flush(lit) =~= seq![spec_classify(lit)]);
    assert(spec_punctuation(';') =~= seq![SpecToken::Semicolon]);
    assert((";"@ + rest).drop_first() =~= rest);
    assert(spec_lex(";"@ + rest, lit) =~= seq![spec_classify(lit), SpecToken::Semicolon]
        + spec_lex(rest, Seq::empty()));
    assert(spec_lex(rest3, Seq::<char>::empty()) =~= seq![spec_classify(lit), SpecToken::Semicolon]
        + spec_lex(rest, Seq::empty()));
    assert(spec_lex(rest2, Seq::<char>::empty()) =~= seq![
        SpecToken::Equals,
        spec_classify(lit),
        SpecToken::Semicolon,
    ] + spec_lex(rest, Seq::empty()));
    assert(spec_lex(" = "@ + lit + ";"@ + rest, name) =~= seq![
        SpecToken::Identifier(name),
        SpecToken::Equals,
        spec_classify(lit),
        SpecToken::Semicolon,
    ] + spec_lex(rest, Seq::empty()));
    assert(spec_lex(rest0, word) =~= seq![
        SpecToken::Let,
        SpecToken::Identifier(name),
        SpecToken::Equals,
        spec_classify(lit),
        SpecToken::Semicolon,
    ] + spec_lex(rest, Seq::empty()));
    assert(spec_lex(src, Seq::empty()) =~= seq![
        SpecToken::Let,
        SpecToken::Identifier(name),
        SpecToken::Equals,
        spec_classify(lit),
        SpecToken::Semicolon,
    ] + spec_lex(rest, Seq::empty()));
}

fn is_exit_keyword(buf: &Vec<char>) -> (b: bool)
    ensures
        b == (buf@ == "exit"@),
{
    proof {
        reveal_strlit("exit");
    }
    let b = buf.len() == 4 && buf[0] == 'e' && buf[1] == 'x' && buf[2] == 'i' && buf[3] == 't';
    proof {
        if b {
            assert(buf@ =~= "exit"@);
        }
    }
    b
}

fn is_let_keyword(buf: &Vec<char>) -> (b: bool)
    ensures
        b == (buf@ == "let"@),
{
    proof {
        reveal_strlit("let");
    }
    let b = buf.len() == 3 && buf[0] == 'l' && buf[1] == 'e' && buf[2] == 't';
    proof {
        if b {
            assert(buf@ =~= "let"@);
        }
    }
    b
}

/// Classifies one flushed accumulator as `spec_classify` says.
fn classify_buffer(buf: &Vec<char>) -> (t: Token)
    ensures
        t@ == spec_classify(buf@),
{
    if is_exit_keyword(buf) {
        Token::Exit
    } else if is_let_keyword(buf) {
        Token::Let
    } else {
        match parse_i64(buf) {
            Some(value) => Token::IntLiteral(value),
            None => Token::Identifier(chars_to_string(&trim_chars(buf))),
        }
    }
}

/// Turns raw source text into the token sequence that `tokens_of` gives.
pub struct Tokenizer {
    src: Vec<char>,
}

impl View for Tokenizer {
    type V = Seq<char>;

    closed spec fn view(&self) -> Seq<char> {
        self.src@
    }
}

impl Tokenizer {
    /// Prepares a lexer over the characters of `source`.
    pub fn new(source: String) -> (t: Tokenizer)
        ensures
            t@ == source@,
    {
        Tokenizer { src: string_to_chars(source.as_str()) }
    }

    /// Produces the token sequence of the source text.
    pub fn tokenize(&self) -> (tokens: Vec<Token>)
        ensures
            view_tokens(tokens@) == tokens_of(self@),
    {
        let mut tokens: Vec<Token> = Vec::new();
        let mut current_token: Vec<char> = Vec::new();
        let mut i: usize = 0;
        proof {
            assert(view_tokens(tokens@) =~= Seq::<SpecToken>::empty());
            assert(self@.skip(0) =~= self@);
            assert(current_token@ =~= Seq::<char>::empty());
            assert(view_tokens(tokens@) + spec_lex(self@.skip(0), current_token@) =~= tokens_of(
                self@,
            ));
        }
        while i < self.src.len()
            invariant
                i <= self.src.len(),
                self.src@ == self@,
                view_tokens(tokens@) + spec_lex(self@.skip(i as int), current_token@) == tokens_of(
                    self@,
                ),
            decreases self.src.len() - i,
        {
            let ghost toks0 = view_tokens(tokens@);
            let ghost buf0 = current_token@;
            let ghost rest = self@.skip(i as int);
            let c = self.src[i];
            proof {
                assert(rest[0] == self@[i as int]);
                assert(rest.drop_first() =~= self@.skip(i + 1));
            }
            if c == ' ' || c == ';' || c == '(' || c == ')' || c == '=' || c == '\n' {
                if current_token.len() > 0 {
                    let t = classify_buffer(&current_token);
                    tokens.push(t);
                    current_token.clear();
                }
                match c {
                    ';' => tokens.push(Token::Semicolon),
                    '(' => tokens.push(Token::OpenParen),
                    ')' => tokens.push(Token::CloseParen),
                    '=' => tokens.push(Token::Equals),
                    _ => {},
                }
                proof {
                    assert(view_tokens(tokens@) =~= toks0 + spec_flush(buf0) + spec_punctuation(
                        c,
                    ));
                    assert(spec_lex(rest, buf0) == spec_flush(buf0) + spec_punctuation(c)
                        + spec_lex(self@.skip(i + 1), Seq::empty()));
                    assert(toks0 + spec_flush(buf0) + spec_punctuation(c) + spec_lex(
                        self@.skip(i + 1),
                        Seq::empty(),
                    ) =~= toks0 + spec_lex(rest, buf0));
                    assert(current_token@ =~= Seq::<char>::empty());
                }
            } else {
                current_token.push(c);
                proof {
                    assert(spec_lex(rest, buf0) == spec_lex(self@.skip(i + 1), buf0.push(c)));
                }
            }
            i = i + 1;
        }
        proof {
            assert(self@.skip(self@.len() as int) =~= Seq::<char>::empty());
        }
        if current_token.len() > 0 {
            let ghost toks0 = view_tokens(tokens@);
            let t = classify_buffer(&current_token);
            tokens.push(t);
            proof {
                assert(view_tokens(tokens@) =~= toks0 + spec_flush(current_token@));
            }
        }
        tokens
    }
}

} // verus!
