//! A tiny ahead-of-time compiler for a two-construct language: `let`
//! bindings of integer constants and a single parenthesized `exit(..)`
//! statement. Source text is lexed into tokens, parsed into one exit
//! node (bindings are resolved at parse time), and rendered as x86-64
//! assembly that terminates the process with the chosen status code.

pub mod generator;
pub mod parser;
pub mod text;
pub mod tokenizer;

use vstd::prelude::*;

use crate::generator::spec_assembly;
use crate::parser::{spec_binding, spec_exit_args, spec_parse, SpecParseError};
use crate::text::{lemma_decimal_round_trip, spec_decimal, spec_is_digit};
use crate::tokenizer::{
    is_identifier_word, lemma_lex_binding, lemma_lex_exit_call, spec_classify, spec_is_delimiter,
    spec_lex, spec_punctuation, tokens_of, SpecToken,
};

verus! {

/// What the whole pipeline produces for the source text `src`: the
/// assembly of the program's exit status, or the error that stopped
/// parsing. Lexing itself never fails.
pub open spec fn spec_compile(src: Seq<char>) -> Result<Seq<char>, SpecParseError> {
    match spec_parse(tokens_of(src), Map::empty(), None) {
        Ok(value) => Ok(spec_assembly(value)),
        Err(e) => Err(e),
    }
}

/// The pipeline is deterministic and stateless across runs: compiling
/// the same source text twice yields byte-identical output. Each stage's
/// contract pins its result to a function of its input alone, so this
/// holds of the executable pipeline as well.
pub proof fn lemma_compilation_deterministic(first: Seq<char>, second: Seq<char>)
    requires
        first == second,
    ensures
        spec_compile(first) == spec_compile(second),
{
}

/// Parsing the token shape of `exit(value);` yields `value`, whatever
/// bindings are in force.
pub proof fn lemma_parse_exit_literal(value: int, table: Map<Seq<char>, int>)
    ensures
        spec_parse(
            seq![
                SpecToken::Exit,
                SpecToken::OpenParen,
                SpecToken::IntLiteral(value),
                SpecToken::CloseParen,
                SpecToken::Semicolon,
            ],
            table,
            None,
        ) == Ok::<int, SpecParseError>(value),
{
    let toks = seq![
        SpecToken::Exit,
        SpecToken::OpenParen,
        SpecToken::IntLiteral(value),
        SpecToken::CloseParen,
        SpecToken::Semicolon,
    ];
    assert(spec_exit_args(toks, table) == Ok::<int, SpecParseError>(value));
    assert(toks.skip(4) =~= seq![SpecToken::Semicolon]);
    assert(seq![SpecToken::Semicolon].skip(1) =~= Seq::<SpecToken>::empty());
    assert(spec_parse(Seq::<SpecToken>::empty(), table, Some(value)) == Ok::<
        int,
        SpecParseError,
    >(value));
    assert(spec_parse(seq![SpecToken::Semicolon], table, Some(value)) == Ok::<
        int,
        SpecParseError,
    >(value));
    assert(spec_parse(toks, table, None) == spec_parse(toks.skip(4), table, Some(value)));
}

/// Parsing the token shape of `exit(name);` when `name` is bound yields
/// the bound value.
pub proof fn lemma_parse_exit_identifier(name: Seq<char>, table: Map<Seq<char>, int>)
    requires
        table.contains_key(name),
    ensures
        spec_parse(
            seq![
                SpecToken::Exit,
                SpecToken::OpenParen,
                SpecToken::Identifier(name),
                SpecToken::CloseParen,
                SpecToken::Semicolon,
            ],
            table,
            None,
        ) == Ok::<int, SpecParseError>(table[name]),
{
    let toks = seq![
        SpecToken::Exit,
        SpecToken::OpenParen,
        SpecToken::Identifier(name),
        SpecToken::CloseParen,
        SpecToken::Semicolon,
    ];
    let value = table[name];
    assert(spec_exit_args(toks, table) == Ok::<int, SpecParseError>(value));
    assert(toks.skip(4) =~= seq![SpecToken::Semicolon]);
    assert(seq![SpecToken::Semicolon].skip(1) =~= Seq::<SpecToken>::empty());
    assert(spec_parse(Seq::<SpecToken>::empty(), table, Some(value)) == Ok::<
        int,
        SpecParseError,
    >(value));
    assert(spec_parse(seq![SpecToken::Semicolon], table, Some(value)) == Ok::<
        int,
        SpecParseError,
    >(value));
    assert(spec_parse(toks, table, None) == spec_parse(toks.skip(4), table, Some(value)));
}

/// Binding resolution is purely a compile-time substitution: a `let`
/// that binds `name` to `value`, followed by `exit(name);`, parses to
/// the same result as `exit(value);` alone, so the generated assembly
/// is identical and the binding has no runtime cost.
pub proof fn lemma_binding_substitution(name: Seq<char>, value: int)
    ensures
        spec_parse(
            seq![
                SpecToken::Let,
                SpecToken::Identifier(name),
                SpecToken::Equals,
                SpecToken::IntLiteral(value),
                SpecToken::Semicolon,
                SpecToken::Exit,
                SpecToken::OpenParen,
                SpecToken::Identifier(name),
                SpecToken::CloseParen,
                SpecToken::Semicolon,
            ],
            Map::empty(),
            None,
        ) == spec_parse(
            seq![
                SpecToken::Exit,
                SpecToken::OpenParen,
                SpecToken::IntLiteral(value),
                SpecToken::CloseParen,
                SpecToken::Semicolon,
            ],
            Map::empty(),
            None,
        ),
{
    let bound = seq![
        SpecToken::Let,
        SpecToken::Identifier(name),
        SpecToken::Equals,
        SpecToken::IntLiteral(value),
        SpecToken::Semicolon,
        SpecToken::Exit,
        SpecToken::OpenParen,
        SpecToken::Identifier(name),
        SpecToken::CloseParen,
        SpecToken::Semicolon,
    ];
    let table = Map::<Seq<char>, int>::empty().insert(name, value);
    let after_semi = seq![
        SpecToken::Exit,
        SpecToken::OpenParen,
        SpecToken::Identifier(name),
        SpecToken::CloseParen,
        SpecToken::Semicolon,
    ];
    assert(spec_binding(bound) == Ok::<(Seq<char>, int), SpecParseError>((name, value)));
    assert(spec_parse(bound, Map::empty(), None) == spec_parse(bound.skip(4), table, None));
    assert(bound.skip(4)[0] is Semicolon);
    assert(spec_parse(bound.skip(4), table, None) == spec_parse(
        bound.skip(4).skip(1),
        table,
        None,
    ));
    assert(bound.skip(4).skip(1) =~= after_semi);
    lemma_parse_exit_identifier(name, table);
    assert(table[name] == value);
    lemma_parse_exit_literal(value, Map::empty());
}

/// Last write wins: binding the same name twice and exiting with it
/// parses to the same result as `exit(second);` alone.
pub proof fn lemma_rebinding_last_write_wins(name: Seq<char>, first: int, second: int)
    ensures
        spec_parse(
            seq![
                SpecToken::Let,
                SpecToken::Identifier(name),
                SpecToken::Equals,
                SpecToken::IntLiteral(first),
                SpecToken::Semicolon,
                SpecToken::Let,
                SpecToken::Identifier(name),
                SpecToken::Equals,
                SpecToken::IntLiteral(second),
                SpecToken::Semicolon,
                SpecToken::Exit,
                SpecToken::OpenParen,
                SpecToken::Identifier(name),
                SpecToken::CloseParen,
                SpecToken::Semicolon,
            ],
            Map::empty(),
            None,
        ) == spec_parse(
            seq![
                SpecToken::Exit,
                SpecToken::OpenParen,
                SpecToken::IntLiteral(second),
                SpecToken::CloseParen,
                SpecToken::Semicolon,
            ],
            Map::empty(),
            None,
        ),
{
    let bound = seq![
        SpecToken::Let,
        SpecToken::Identifier(name),
        SpecToken::Equals,
        SpecToken::IntLiteral(first),
        SpecToken::Semicolon,
        SpecToken::Let,
        SpecToken::Identifier(name),
        SpecToken::Equals,
        SpecToken::IntLiteral(second),
        SpecToken::Semicolon,
        SpecToken::Exit,
        SpecToken::OpenParen,
        SpecToken::Identifier(name),
        SpecToken::CloseParen,
        SpecToken::Semicolon,
    ];
    let once = Map::<Seq<char>, int>::empty().insert(name, first);
    let twice = once.insert(name, second);
    assert(twice[name] == second);
    let second_let = seq![
        SpecToken::Let,
        SpecToken::Identifier(name),
        SpecToken::Equals,
        SpecToken::IntLiteral(second),
        SpecToken::Semicolon,
        SpecToken::Exit,
        SpecToken::OpenParen,
        SpecToken::Identifier(name),
        SpecToken::CloseParen,
        SpecToken::Semicolon,
    ];
    let after_semi = seq![
        SpecToken::Exit,
        SpecToken::OpenParen,
        SpecToken::Identifier(name),
        SpecToken::CloseParen,
        SpecToken::Semicolon,
    ];
    assert(spec_binding(bound) == Ok::<(Seq<char>, int), SpecParseError>((name, first)));
    assert(spec_parse(bound, Map::empty(), None) == spec_parse(bound.skip(4), once, None));
    assert(bound.skip(4)[0] is Semicolon);
    assert(spec_parse(bound.skip(4), once, None) == spec_parse(bound.skip(4).skip(1), once, None));
    assert(bound.skip(4).skip(1) =~= second_let);
    assert(spec_binding(second_let) == Ok::<(Seq<char>, int), SpecParseError>((name, second)));
    assert(spec_parse(second_let, once, None) == spec_parse(second_let.skip(4), twice, None));
    assert(second_let.skip(4)[0] is Semicolon);
    assert(spec_parse(second_let.skip(4), twice, None) == spec_parse(
        second_let.skip(4).skip(1),
        twice,
        None,
    ));
    assert(second_let.skip(4).skip(1) =~= after_semi);
    lemma_parse_exit_identifier(name, twice);
    lemma_parse_exit_literal(second, Map::empty());
}

/// Referencing an identifier with no binding in force stops the parse
/// with an error naming that identifier.
pub proof fn lemma_undefined_identifier(
    name: Seq<char>,
    table: Map<Seq<char>, int>,
    found: Option<int>,
)
    requires
        !table.contains_key(name),
    ensures
        spec_parse(
            seq![
                SpecToken::Exit,
                SpecToken::OpenParen,
                SpecToken::Identifier(name),
                SpecToken::CloseParen,
                SpecToken::Semicolon,
            ],
            table,
            found,
        ) == Err::<int, SpecParseError>(SpecParseError::UndefinedVariable(name)),
{
}

/// At source level: compiling `exit(NAME);` with no binding for the
/// identifier fails with an error naming it, and no assembly results.
pub proof fn lemma_undefined_identifier_source(name: Seq<char>)
    requires
        is_identifier_word(name),
    ensures
        spec_compile("exit("@ + name + ");"@) == Err::<Seq<char>, SpecParseError>(
            SpecParseError::UndefinedVariable(name),
        ),
{
    lemma_lex_exit_call(name);
    assert(spec_classify(name) == SpecToken::Identifier(name));
    lemma_undefined_identifier(name, Map::empty(), None);
}

/// An exit statement whose keyword is not followed by `(` stops the
/// parse with a syntax error, whatever follows.
pub proof fn lemma_missing_open_paren(
    toks: Seq<SpecToken>,
    table: Map<Seq<char>, int>,
    found: Option<int>,
)
    requires
        toks.len() > 0,
        toks[0] is Exit,
        toks.len() < 2 || !(toks[1] is OpenParen),
    ensures
        spec_parse(toks, table, found) == Err::<int, SpecParseError>(
            SpecParseError::ExpectedOpenParen,
        ),
{
}

/// A token sequence with no `exit` keyword can only parse to the
/// default status code `0`.
pub proof fn lemma_no_exit_defaults_to_zero(toks: Seq<SpecToken>, table: Map<Seq<char>, int>)
    requires
        forall|i: int| 0 <= i < toks.len() ==> !(toks[i] is Exit),
    ensures
        spec_parse(toks, table, None) matches Ok(value) ==> value == 0,
    decreases toks.len(),
{
    if toks.len() > 0 {
        match toks[0] {
            SpecToken::Let => {
                if crate::parser::spec_binding(toks) is Ok {
                    assert(forall|i: int|
                        0 <= i < toks.skip(4).len() ==> !(#[trigger] toks.skip(4)[i] is Exit));
                    let binding = crate::parser::spec_binding(toks)->Ok_0;
                    lemma_no_exit_defaults_to_zero(toks.skip(4), table.insert(binding.0, binding.1));
                }
            },
            SpecToken::Exit => {
                assert(false);
            },
            _ => {
                assert(forall|i: int|
                    0 <= i < toks.skip(1).len() ==> !(#[trigger] toks.skip(1)[i] is Exit));
                lemma_no_exit_defaults_to_zero(toks.skip(1), table);
            },
        }
    }
}

/// Empty source text compiles to the program that exits with status
/// `0`: lexing yields no tokens and the default program node stands in.
pub proof fn lemma_empty_source_compiles_to_zero()
    ensures
        spec_compile(Seq::<char>::empty()) == Ok::<Seq<char>, SpecParseError>(spec_assembly(0)),
{
    assert(tokens_of(Seq::<char>::empty()) =~= Seq::<SpecToken>::empty());
}

/// Source text with no `exit` token compiles, when it compiles at all,
/// to the program that exits with status `0`.
pub proof fn lemma_no_exit_source_compiles_to_zero(src: Seq<char>)
    requires
        forall|i: int| 0 <= i < tokens_of(src).len() ==> !(tokens_of(src)[i] is Exit),
    ensures
        spec_compile(src) matches Ok(assembly) ==> assembly == spec_assembly(0),
{
    lemma_no_exit_defaults_to_zero(tokens_of(src), Map::empty());
}

proof fn lemma_literal_char_not_delimiter(c: char)
    requires
        spec_is_digit(c) || c == '-' || c == '+',
    ensures
        !spec_is_delimiter(c),
{
    assert('0' as int == 48 && '9' as int == 57 && ' ' as int == 32 && ';' as int == 59 && '('
        as int == 40 && ')' as int == 41 && '=' as int == 61 && '\n' as int == 10 && '-' as int
        == 45 && '+' as int == 43);
}

/// The decimal text of `n` lexes as one token: the literal `n` itself.
proof fn lemma_decimal_is_literal_word(n: i64)
    ensures
        spec_decimal(n as int).len() > 0,
        forall|i: int|
            0 <= i < spec_decimal(n as int).len() ==> !spec_is_delimiter(
                #[trigger] spec_decimal(n as int)[i],
            ),
        spec_classify(spec_decimal(n as int)) == SpecToken::IntLiteral(n as int),
{
    reveal_strlit("exit");
    reveal_strlit("let");
    let lit = spec_decimal(n as int);
    lemma_decimal_round_trip(n);
    if n >= 0 {
        crate::text::lemma_spec_digits_value(n as int);
    } else {
        crate::text::lemma_spec_digits_value(-(n as int));
    }
    assert forall|i: int| 0 <= i < lit.len() implies !spec_is_delimiter(lit[i]) by {
        if n >= 0 {
            assert(lit == crate::text::spec_digits(n as int));
            assert(spec_is_digit(lit[i]));
        } else {
            assert(lit == seq!['-'] + crate::text::spec_digits(-(n as int)));
            if i > 0 {
                assert(lit[i] == crate::text::spec_digits(-(n as int))[i - 1]);
                assert(spec_is_digit(lit[i]));
            } else {
                assert(lit[0] == '-');
            }
        }
        lemma_literal_char_not_delimiter(lit[i]);
    }
    assert(lit != "exit"@ && lit != "let"@) by {
        if n >= 0 {
            assert(spec_is_digit(lit[0]));
        } else {
            assert(lit[0] == '-');
        }
        assert('e' as int == 101 && 'l' as int == 108 && '0' as int == 48 && '9' as int == 57 && '-'
            as int == 45);
    }
}

/// For every representable 64-bit literal `n`, the source `exit(N);`
/// with `N` the decimal text of `n` compiles to the assembly that exits
/// with status `n`. Once assembled and run, the operating system
/// reports that status truncated to its low eight bits.
pub proof fn lemma_exit_literal_program(n: i64)
    ensures
        spec_compile("exit("@ + spec_decimal(n as int) + ");"@) == Ok::<Seq<char>, SpecParseError>(
            spec_assembly(n as int),
        ),
{
    let lit = spec_decimal(n as int);
    lemma_decimal_is_literal_word(n);
    lemma_lex_exit_call(lit);
    assert(tokens_of("exit("@ + lit + ");"@) == seq![
        SpecToken::Exit,
        SpecToken::OpenParen,
        SpecToken::IntLiteral(n as int),
        SpecToken::CloseParen,
        SpecToken::Semicolon,
    ]);
    lemma_parse_exit_literal(n as int, Map::empty());
}

/// Binding resolution has no trace in the output: for any identifier
/// `name` and 64-bit literal `n`, the source `let NAME = N; exit(NAME);`
/// compiles to byte-identical assembly as `exit(N);` alone.
pub proof fn lemma_binding_source_substitution(name: Seq<char>, n: i64)
    requires
        is_identifier_word(name),
    ensures
        spec_compile(
            "let "@ + name + " = "@ + spec_decimal(n as int) + "; exit("@ + name + ");"@,
        ) == spec_compile("exit("@ + spec_decimal(n as int) + ");"@),
{
    reveal_strlit("; exit(");
    reveal_strlit(";");
    reveal_strlit(" exit(");
    reveal_strlit("exit(");
    reveal_strlit(" ");
    let lit = spec_decimal(n as int);
    lemma_decimal_is_literal_word(n);
    let src = "let "@ + name + " = "@ + lit + "; exit("@ + name + ");"@;
    let tail = " exit("@ + name + ");"@;
    assert(src =~= "let "@ + name + " = "@ + lit + ";"@ + tail);
    lemma_lex_binding(name, lit, tail);
    assert(spec_is_delimiter(tail[0]));
    assert(spec_punctuation(' ') =~= Seq::<SpecToken>::empty());
    assert(tail.drop_first() =~= "exit("@ + name + ");"@);
    lemma_lex_exit_call(name);
    assert(spec_classify(name) == SpecToken::Identifier(name));
    assert(spec_lex(tail, Seq::<char>::empty()) =~= seq![
        SpecToken::Exit,
        SpecToken::OpenParen,
        SpecToken::Identifier(name),
        SpecToken::CloseParen,
        SpecToken::Semicolon,
    ]);
    assert(tokens_of(src) =~= seq![
        SpecToken::Let,
        SpecToken::Identifier(name),
        SpecToken::Equals,
        SpecToken::IntLiteral(n as int),
        SpecToken::Semicolon,
        SpecToken::Exit,
        SpecToken::OpenParen,
        SpecToken::Identifier(name),
        SpecToken::CloseParen,
        SpecToken::Semicolon,
    ]);
    lemma_binding_substitution(name, n as int);
    lemma_lex_exit_call(lit);
    assert(tokens_of("exit("@ + lit + ");"@) == seq![
        SpecToken::Exit,
        SpecToken::OpenParen,
        SpecToken::IntLiteral(n as int),
        SpecToken::CloseParen,
        SpecToken::Semicolon,
    ]);
}

/// Rebinding at source level: `let NAME = A; let NAME = B; exit(NAME);`
/// compiles to byte-identical assembly as `exit(B);` alone — the last
/// write to a name wins.
pub proof fn lemma_rebinding_source(name: Seq<char>, first: i64, second: i64)
    requires
        is_identifier_word(name),
    ensures
        spec_compile(
            "let "@ + name + " = "@ + spec_decimal(first as int) + "; let "@ + name + " = "@
                + spec_decimal(second as int) + "; exit("@ + name + ");"@,
        ) == spec_compile("exit("@ + spec_decimal(second as int) + ");"@),
{
    reveal_strlit("; let ");
    reveal_strlit("; exit(");
    reveal_strlit(";");
    reveal_strlit(" let ");
    reveal_strlit("let ");
    reveal_strlit(" exit(");
    reveal_strlit("exit(");
    reveal_strlit(" ");
    let lit1 = spec_decimal(first as int);
    let lit2 = spec_decimal(second as int);
    lemma_decimal_is_literal_word(first);
    lemma_decimal_is_literal_word(second);
    let src = "let "@ + name + " = "@ + lit1 + "; let "@ + name + " = "@ + lit2 + "; exit("@ + name
        + ");"@;
    let tail1 = " let "@ + name + " = "@ + lit2 + "; exit("@ + name + ");"@;
    assert(src =~= "let "@ + name + " = "@ + lit1 + ";"@ + tail1);
    lemma_lex_binding(name, lit1, tail1);
    assert(spec_is_delimiter(tail1[0]));
    assert(spec_punctuation(' ') =~= Seq::<SpecToken>::empty());
    let mid = "let "@ + name + " = "@ + lit2 + "; exit("@ + name + ");"@;
    assert(tail1.drop_first() =~= mid);
    let tail2 = " exit("@ + name + ");"@;
    assert(mid =~= "let "@ + name + " = "@ + lit2 + ";"@ + tail2);
    lemma_lex_binding(name, lit2, tail2);
    assert(spec_is_delimiter(tail2[0]));
    assert(tail2.drop_first() =~= "exit("@ + name + ");"@);
    lemma_lex_exit_call(name);
    assert(spec_classify(name) == SpecToken::Identifier(name));
    let exit_toks = seq![
        SpecToken::Exit,
        SpecToken::OpenParen,
        SpecToken::Identifier(name),
        SpecToken::CloseParen,
        SpecToken::Semicolon,
    ];
    assert(spec_lex(tail2, Seq::<char>::empty()) =~= exit_toks);
    assert(tokens_of(mid) =~= seq![
        SpecToken::Let,
        SpecToken::Identifier(name),
        SpecToken::Equals,
        SpecToken::IntLiteral(second as int),
        SpecToken::Semicolon,
    ] + exit_toks);
    assert(spec_lex(tail1, Seq::<char>::empty()) =~= tokens_of(mid));
    assert(tokens_of(src) =~= seq![
        SpecToken::Let,
        SpecToken::Identifier(name),
        SpecToken::Equals,
        SpecToken::IntLiteral(first as int),
        SpecToken::Semicolon,
        SpecToken::Let,
        SpecToken::Identifier(name),
        SpecToken::Equals,
        SpecToken::IntLiteral(second as int),
        SpecToken::Semicolon,
        SpecToken::Exit,
        SpecToken::OpenParen,
        SpecToken::Identifier(name),
        SpecToken::CloseParen,
        SpecToken::Semicolon,
    ]);
    lemma_rebinding_last_write_wins(name, first as int, second as int);
    lemma_lex_exit_call(lit2);
    assert(tokens_of("exit("@ + lit2 + ");"@) == seq![
        SpecToken::Exit,
        SpecToken::OpenParen,
        SpecToken::IntLiteral(second as int),
        SpecToken::CloseParen,
        SpecToken::Semicolon,
    ]);
}

} // verus!

