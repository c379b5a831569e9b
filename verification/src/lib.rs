//! A compiler front end for a minimal subset of C: a character-level
//! tokenizer, a recursive-descent parser that builds an abstract syntax
//! tree under a fixed grammar, and a code generator that lowers the tree
//! into an assembly listing.
//!
//! The grammar recognized:
//!
//! ```text
//! program    ::= function
//! function   ::= "int" identifier "(" ")" "{" statement "}"
//! statement  ::= "return" expression ";"
//! expression ::= integer-literal
//! ```
//!
//! The pipeline works on plain in-memory strings: the surrounding driver
//! reads the source file, hands its text to [`tokenizer::tokenize`],
//! passes the tokens to [`parser::parse_program`], and writes the string
//! returned by [`generate::generate_assembly`] wherever it is wanted.

use vstd::prelude::*;

pub mod generate;
pub mod parser;
pub mod tokenizer;

verus! {

/// The configuration the surrounding driver runs with: the path of the
/// source file to compile.
pub struct Config {
    pub file_path: String,
}

/// Does `s` end in the two characters `.c`?
pub open spec fn spec_ends_in_dot_c(s: Seq<char>) -> bool {
    s.len() >= 2 && s[s.len() - 2] == '.' && s[s.len() - 1] == 'c'
}

impl Config {
    /// Builds a `Config` from the command-line arguments: the first
    /// argument after the program name must name a `.c` file.
    pub fn build(args: &[String]) -> (r: Result<Config, &'static str>)
        ensures
            args@.len() >= 2 && spec_ends_in_dot_c(args@[1]@) ==> (r matches Ok(c)
                && c.file_path@ == args@[1]@),
            args@.len() < 2 ==> (r matches Err(m) && m@ == "No file provided"@),
            args@.len() >= 2 && !spec_ends_in_dot_c(args@[1]@) ==> (r matches Err(m) && m@
                == "File does not end in .c"@),
    {
        if args.len() < 2 {
            return Err("No file provided");
        }

        let file_path = args[1].clone();

        let s: &str = file_path.as_str();
        let n: usize = s.unicode_len();
        let ends_in_dot_c: bool = n >= 2 && s.get_char(n - 2) == '.' && s.get_char(n - 1) == 'c';
        if !ends_in_dot_c {
            return Err("File does not end in .c");
        }

        Ok(Config { file_path })
    }
}

} // verus!
