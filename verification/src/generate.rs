//! The code generator: lowers a parsed [`Program`] into an assembly
//! listing.
//!
//! For the one function of the program it emits a global-visibility
//! directive naming the function's symbol, a label for that symbol, and
//! the lowering of its single statement: an instruction that loads the
//! literal return value into the return register, then a return
//! instruction. For a function named `F` returning literal `V`:
//!
//! ```text
//!  .globl _F
//! _F:
//!  movl    $V, %eax
//!  ret
//! ```
//!
//! The caller receives the listing as a plain string; handing it to an
//! assembler, or to a file, is the surrounding driver's business.

use crate::parser::{Function, Program, Statement};
use vstd::prelude::*;

verus! {

/// The lowering of one statement: load the literal into `%eax`, return.
/// `offset` stands before each instruction.
pub open spec fn spec_statement_assembly(value: Seq<char>, offset: Seq<char>) -> Seq<char> {
    offset + "movl    $"@ + value + ", %eax\n"@ + offset + "ret"@
}

/// The lowering of one function: visibility directive, label, body.
pub open spec fn spec_function_assembly(identifier: Seq<char>, value: Seq<char>) -> Seq<char> {
    " .globl _"@ + identifier + "\n"@ + "_"@ + identifier + ":\n"@ + spec_statement_assembly(
        value,
        " "@,
    )
}

/// The whole listing of a program: the lowering of its one function.
pub open spec fn spec_assembly(ast: Program) -> Seq<char> {
    spec_function_assembly(ast.function.identifier@, ast.function.statement.expression.value@)
}

/// Appends the lowering of one statement to `code`, each instruction
/// preceded by `offset`.
fn generate_statements(statement: Statement, code: &mut String, offset: &str)
    ensures
        final(code)@ == old(code)@ + spec_statement_assembly(statement.expression.value@, offset@),
{
    code.append(offset);
    code.append("movl    $");
    code.append(statement.expression.value.as_str());
    code.append(", %eax\n");
    code.append(offset);
    code.append("ret");
    proof {
        assert(code@ =~= old(code)@ + spec_statement_assembly(
            statement.expression.value@,
            offset@,
        ));
    }
}

/// Appends the lowering of one function to `code`: the `.globl`
/// directive, the label, and the body of its statement.
fn generate_function(function: Function, code: &mut String)
    ensures
        final(code)@ == old(code)@ + spec_function_assembly(
            function.identifier@,
            function.statement.expression.value@,
        ),
{
    code.append(" .globl _");
    code.append(function.identifier.as_str());
    code.append("\n");
    code.append("_");
    code.append(function.identifier.as_str());
    code.append(":\n");
    generate_statements(function.statement, code, " ");
    proof {
        assert(code@ =~= old(code)@ + spec_function_assembly(
            function.identifier@,
            function.statement.expression.value@,
        ));
    }
}

/// Lowers a whole program into its assembly listing.
pub fn generate_assembly(ast: Program) -> (code: String)
    ensures
        code@ == spec_assembly(ast),
{
    let mut code = String::new();
    generate_function(ast.function, &mut code);
    proof {
        assert(Seq::<char>::empty() + spec_assembly(ast) =~= spec_assembly(ast));
    }
    code
}

} // verus!
