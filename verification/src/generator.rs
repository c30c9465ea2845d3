//! Code generation: renders the parsed exit node as x86-64 assembly
//! text. The emitted program makes the Linux `exit` system call (call
//! number 60) with the node's integer as the status code. Generation
//! never fails and performs no validation of its own.

use vstd::prelude::*;

use crate::parser::NodeExit;
use crate::text::{chars_to_string, format_i64, spec_decimal};

verus! {

/// The assembly text of a program that exits with status `value`: one
/// fixed template with the decimal of `value` substituted.
pub open spec fn spec_assembly(value: int) -> Seq<char> {
    "global _start\n_start:\n    mov rax, 60\n    mov rdi, "@ + spec_decimal(value)
        + " \n    syscall\n"@
}

/// Renders a parsed syntax tree as x86-64 assembly text.
pub struct Generator {
    root: NodeExit,
}

impl View for Generator {
    type V = int;

    /// The status code the generated program will exit with.
    closed spec fn view(&self) -> int {
        self.root.expr.int_value as int
    }
}

impl Generator {
    /// Wraps the root node of the syntax tree for rendering.
    pub fn new(root: NodeExit) -> (g: Generator)
        ensures
            g@ == root.expr.int_value as int,
    {
        Generator { root }
    }

    /// The generated assembly: `spec_assembly` over the exit status.
    pub fn generate(&self) -> (assembly: String)
        ensures
            assembly@ == spec_assembly(self@),
    {
        let mut assembly = String::from_str("global _start\n_start:\n    mov rax, 60\n    mov rdi, ");
        let operand = chars_to_string(&format_i64(self.root.expr.int_value));
        assembly.append(operand.as_str());
        assembly.append(" \n    syscall\n");
        proof {
            assert(assembly@ =~= spec_assembly(self@));
        }
        assembly
    }
}

} // verus!
