use shpiller::generator::Generator;
use shpiller::parser::{NodeExit, NodeExpr, ParseError, Parser};
use shpiller::tokenizer::Tokenizer;

fn compile(src: &str) -> Result<String, ParseError> {
    let tokens = Tokenizer::new(src.to_string()).tokenize();
    let tree = Parser::new(tokens).parse()?;
    Ok(Generator::new(tree).generate())
}

fn expected_assembly(operand: &str) -> String {
    format!(
        "global _start\n_start:\n    mov rax, 60\n    mov rdi, {} \n    syscall\n",
        operand
    )
}

#[test]
fn generate_exit_literal() {
    assert_eq!(compile("exit(5);").unwrap(), expected_assembly("5"));
}

#[test]
fn generate_from_node_directly() {
    let generator = Generator::new(NodeExit {
        expr: NodeExpr { int_value: 255 },
    });
    assert_eq!(generator.generate(), expected_assembly("255"));
}

#[test]
fn generate_negative_status() {
    assert_eq!(compile("exit(-1);").unwrap(), expected_assembly("-1"));
}

#[test]
fn generate_extreme_statuses() {
    assert_eq!(
        compile("exit(9223372036854775807);").unwrap(),
        expected_assembly("9223372036854775807")
    );
    assert_eq!(
        compile("exit(-9223372036854775808);").unwrap(),
        expected_assembly("-9223372036854775808")
    );
}

#[test]
fn binding_produces_identical_assembly() {
    assert_eq!(
        compile("let x = 5; exit(x);").unwrap(),
        compile("exit(5);").unwrap()
    );
}

#[test]
fn rebinding_produces_identical_assembly() {
    assert_eq!(
        compile("let x = 1; let x = 2; exit(x);").unwrap(),
        compile("exit(2);").unwrap()
    );
}

#[test]
fn no_exit_statement_compiles_to_zero() {
    assert_eq!(compile("let x = 5;").unwrap(), expected_assembly("0"));
    assert_eq!(compile("").unwrap(), expected_assembly("0"));
}

#[test]
fn failed_parse_yields_no_assembly() {
    assert!(compile("exit(y);").is_err());
    assert!(compile("exit 5;").is_err());
}

#[test]
fn compilation_is_idempotent() {
    let src = "let code = 7; exit(code);";
    let first = compile(src).unwrap();
    let second = compile(src).unwrap();
    assert_eq!(first, second);
    assert_eq!(first.as_bytes(), second.as_bytes());
}
