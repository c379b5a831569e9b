//! The recursive-descent parser.
//!
//! The grammar, in Backus-Naur form:
//!
//! ```text
//! program   ::= function
//! function  ::= "int" identifier "(" ")" "{" statement "}"
//! statement ::= "return" expression ";"
//! expression ::= integer-literal
//! ```
//!
//! One function per grammar rule; each consumes tokens destructively from
//! the front of the vector and returns either the tree node it built or
//! the first grammar violation it met. Every failure is returned, never
//! fatal: a shorter-than-expected token stream gives
//! [`ParseError::UnexpectedEndOfInput`], an unclassifiable token
//! [`ParseError::ClassificationError`], and a token of the wrong kind or
//! text [`ParseError::UnexpectedToken`] — except in expression position,
//! where a non-number gives [`ParseError::InvalidExpression`].
//!
//! Each rule's behaviour is modelled by a spec function returning the
//! pair (tokens consumed, result); the predicates
//! [`spec_statement_tokens`], [`spec_function_tokens`] and
//! [`spec_program_tokens`] characterize exactly the token sequences each
//! rule accepts.

use crate::tokenizer::Token;
use vstd::prelude::*;

verus! {

broadcast use vstd::seq_lib::lemma_seq_skip_of_skip;

/// The root of the syntax tree: exactly one function.
pub struct Program {
    pub function: Function,
}

/// A function: its name and its single statement body.
pub struct Function {
    pub identifier: String,
    pub statement: Statement,
}

/// A statement: `return <expression> ;`, holding exactly one expression.
#[derive(PartialEq, Debug)]
pub struct Statement {
    pub expression: Expression,
}

/// An expression: an integer literal, stored as its literal text.
#[derive(PartialEq, Debug)]
pub struct Expression {
    pub value: String,
}

/// The two keywords of the grammar.
#[derive(PartialEq, Eq, Structural, Debug, Clone, Copy)]
pub enum Keyword {
    Return,
    Int,
}

/// The classification of a token, derived from its text alone.
#[derive(PartialEq, Eq, Structural, Debug, Clone, Copy)]
pub enum TokenType {
    Keyword(Keyword),
    Identifier,
    Number,
    Punctuation,
}

/// Everything that can go wrong while classifying or parsing.
#[derive(PartialEq, Eq, Structural, Debug, Clone, Copy)]
pub enum ParseError {
    /// The token's text matches no recognized category.
    ClassificationError,
    /// The token's kind or text does not match the grammar at this point.
    UnexpectedToken,
    /// The grammar expects another token but none remain.
    UnexpectedEndOfInput,
    /// Expression position holds a token that is not a number.
    InvalidExpression,
}

/// An ASCII decimal digit.
pub open spec fn spec_is_digit(c: char) -> bool {
    '0' <= c && c <= '9'
}

/// Whether a character counts as a letter in an identifier: the Unicode
/// alphabetic property, exactly as `char::is_alphabetic` decides it. The
/// property is a function of the character alone; its definition is the
/// Unicode table behind that call, so it is named rather than restated.
pub uninterp spec fn unicode_alpha(c: char) -> bool;

/// Relies on char::is_alphabetic: whether a character is alphabetic
/// depends on the character alone, by the Unicode character tables.
#[verifier::external_body]
fn is_alpha_char(c: char) -> (r: bool)
    ensures
        r == unicode_alpha(c),
{
    c.is_alphabetic()
}

/// A valid integer literal: non-empty, and either exactly one digit, or a
/// non-zero first digit followed by digits only (no leading zeros).
pub open spec fn spec_is_number(s: Seq<char>) -> bool {
    if s.len() == 0 {
        false
    } else if s.len() == 1 {
        spec_is_digit(s[0])
    } else {
        s[0] != '0' && spec_is_digit(s[0]) && (forall|j: int|
            1 <= j < s.len() ==> spec_is_digit(#[trigger] s[j]))
    }
}

/// A valid identifier: non-empty and alphabetic characters only —
/// deliberately narrow, with no digits and no underscores.
pub open spec fn spec_is_identifier(s: Seq<char>) -> bool {
    s.len() > 0 && (forall|j: int| 0 <= j < s.len() ==> unicode_alpha(#[trigger] s[j]))
}

/// A punctuation token's text: one of `{ } ( ) ;`.
pub open spec fn spec_is_punct_value(s: Seq<char>) -> bool {
    s == "{"@ || s == "}"@ || s == "("@ || s == ")"@ || s == ";"@
}

/// Classification of a token text: keywords first, then punctuation, then
/// numbers, then identifiers; any other text is a classification error.
pub open spec fn spec_classify(s: Seq<char>) -> Result<TokenType, ParseError> {
    if s == "return"@ {
        Ok(TokenType::Keyword(Keyword::Return))
    } else if s == "int"@ {
        Ok(TokenType::Keyword(Keyword::Int))
    } else if spec_is_punct_value(s) {
        Ok(TokenType::Punctuation)
    } else if spec_is_number(s) {
        Ok(TokenType::Number)
    } else if spec_is_identifier(s) {
        Ok(TokenType::Identifier)
    } else {
        Err(ParseError::ClassificationError)
    }
}

/// Does the string equal the given literal, character for character?
fn value_is(v: &String, lit: &str) -> (r: bool)
    ensures
        r == (v@ == lit@),
{
    let s: String = lit.to_owned();
    *v == s
}

/// Is `token` a valid integer literal? See [`spec_is_number`].
pub fn is_number(token: &str) -> (r: bool)
    ensures
        r == spec_is_number(token@),
{
    let n: usize = token.unicode_len();
    if n == 0 {
        return false;
    }
    let first = token.get_char(0);
    if n == 1 {
        return '0' <= first && first <= '9';
    }
    if first == '0' || !('0' <= first && first <= '9') {
        return false;
    }
    let mut j: usize = 1;
    while j < n
        invariant
            1 <= j <= n,
            n == token@.len(),
            spec_is_digit(token@[0]),
            token@[0] != '0',
            forall|t: int| 1 <= t < j ==> spec_is_digit(#[trigger] token@[t]),
        decreases n - j,
    {
        let c = token.get_char(j);
        if !('0' <= c && c <= '9') {
            return false;
        }
        j = j + 1;
    }
    true
}

/// Is `token` a valid identifier? See [`spec_is_identifier`].
pub fn is_identifier(token: &str) -> (r: bool)
    ensures
        r == spec_is_identifier(token@),
{
    let n: usize = token.unicode_len();
    if n == 0 {
        return false;
    }
    let mut j: usize = 0;
    while j < n
        invariant
            0 <= j <= n,
            n == token@.len(),
            forall|t: int| 0 <= t < j ==> unicode_alpha(#[trigger] token@[t]),
        decreases n - j,
    {
        let c = token.get_char(j);
        if !is_alpha_char(c) {
            return false;
        }
        j = j + 1;
    }
    true
}

/// Classifies a token by its text, exactly as [`spec_classify`] says:
/// keyword, punctuation, number or identifier, else a classification
/// error.
pub fn get_token_type(token: &Token) -> (r: Result<TokenType, ParseError>)
    ensures
        r == spec_classify(token.value@),
{
    if value_is(&token.value, "return") {
        return Ok(TokenType::Keyword(Keyword::Return));
    }

    if value_is(&token.value, "int") {
        return Ok(TokenType::Keyword(Keyword::Int));
    }

    if value_is(&token.value, "{") || value_is(&token.value, "}") || value_is(&token.value, "(")
        || value_is(&token.value, ")") || value_is(&token.value, ";") {
        return Ok(TokenType::Punctuation);
    }

    if is_number(token.value.as_str()) {
        return Ok(TokenType::Number);
    }

    if is_identifier(token.value.as_str()) {
        return Ok(TokenType::Identifier);
    }

    Err(ParseError::ClassificationError)
}

/// The model of parsing an expression from the front of `toks`: the pair
/// (tokens consumed, result), the result being the literal's text.
pub open spec fn spec_parse_expression(toks: Seq<Token>) -> (int, Result<Seq<char>, ParseError>) {
    if toks.len() == 0 {
        (0int, Err(ParseError::UnexpectedEndOfInput))
    } else {
        match spec_classify(toks[0].value@) {
            Err(e) => (1int, Err(e)),
            Ok(t) => if t == TokenType::Number {
                (1int, Ok(toks[0].value@))
            } else {
                (1int, Err(ParseError::InvalidExpression))
            },
        }
    }
}

/// The model of parsing a statement: (tokens consumed, result), the result
/// being the text of the returned expression.
pub open spec fn spec_parse_statement(toks: Seq<Token>) -> (int, Result<Seq<char>, ParseError>) {
    if toks.len() == 0 {
        (0int, Err(ParseError::UnexpectedEndOfInput))
    } else {
        match spec_classify(toks[0].value@) {
            Err(e) => (1int, Err(e)),
            Ok(t) => if t != TokenType::Keyword(Keyword::Return) {
                (1int, Err(ParseError::UnexpectedToken))
            } else {
                let rest1 = toks.skip(1);
                let c1 = spec_parse_expression(rest1).0;
                match spec_parse_expression(rest1).1 {
                    Err(e) => (1 + c1, Err(e)),
                    Ok(v) => {
                        let rest2 = rest1.skip(c1);
                        if rest2.len() == 0 {
                            (1 + c1, Err(ParseError::UnexpectedEndOfInput))
                        } else {
                            match spec_classify(rest2[0].value@) {
                                Err(e) => (2 + c1, Err(e)),
                                Ok(t2) => if t2 == TokenType::Punctuation && rest2[0].value@
                                    == ";"@ {
                                    (2 + c1, Ok(v))
                                } else {
                                    (2 + c1, Err(ParseError::UnexpectedToken))
                                },
                            }
                        }
                    },
                }
            },
        }
    }
}

/// The model of parsing a function: (tokens consumed, result), the result
/// being the pair (identifier text, return literal text).
pub open spec fn spec_parse_function(toks: Seq<Token>) -> (
    int,
    Result<(Seq<char>, Seq<char>), ParseError>,
) {
    if toks.len() == 0 {
        (0int, Err(ParseError::UnexpectedEndOfInput))
    } else {
        match spec_classify(toks[0].value@) {
            Err(e) => (1int, Err(e)),
            Ok(t) => if t != TokenType::Keyword(Keyword::Int) {
                (1int, Err(ParseError::UnexpectedToken))
            } else if toks.len() == 1 {
                (1int, Err(ParseError::UnexpectedEndOfInput))
            } else {
                match spec_classify(toks[1].value@) {
                    Err(e) => (2int, Err(e)),
                    Ok(t1) => if t1 != TokenType::Identifier {
                        (2int, Err(ParseError::UnexpectedToken))
                    } else if toks.len() == 2 {
                        (2int, Err(ParseError::UnexpectedEndOfInput))
                    } else if toks[2].value@ != "("@ {
                        (3int, Err(ParseError::UnexpectedToken))
                    } else if toks.len() == 3 {
                        (3int, Err(ParseError::UnexpectedEndOfInput))
                    } else if toks[3].value@ != ")"@ {
                        (4int, Err(ParseError::UnexpectedToken))
                    } else if toks.len() == 4 {
                        (4int, Err(ParseError::UnexpectedEndOfInput))
                    } else if toks[4].value@ != "{"@ {
                        (5int, Err(ParseError::UnexpectedToken))
                    } else {
                        let rest = toks.skip(5);
                        let cs = spec_parse_statement(rest).0;
                        match spec_parse_statement(rest).1 {
                            Err(e) => (5 + cs, Err(e)),
                            Ok(v) => {
                                let rest2 = rest.skip(cs);
                                if rest2.len() == 0 {
                                    (5 + cs, Err(ParseError::UnexpectedEndOfInput))
                                } else if rest2[0].value@ != "}"@ {
                                    (6 + cs, Err(ParseError::UnexpectedToken))
                                } else {
                                    (6 + cs, Ok((toks[1].value@, v)))
                                }
                            },
                        }
                    },
                }
            },
        }
    }
}

/// The model of parsing a program: a function followed by nothing.
pub open spec fn spec_parse_program(toks: Seq<Token>) -> (
    int,
    Result<(Seq<char>, Seq<char>), ParseError>,
) {
    let c = spec_parse_function(toks).0;
    match spec_parse_function(toks).1 {
        Err(e) => (c, Err(e)),
        Ok(m) => if toks.skip(c).len() == 0 {
            (c, Ok(m))
        } else {
            (c, Err(ParseError::UnexpectedToken))
        },
    }
}

/// The token sequences a statement parse accepts: `return`, a number, `;`.
pub open spec fn spec_statement_tokens(toks: Seq<Token>) -> bool {
    toks.len() >= 3 && toks[0].value@ == "return"@ && spec_classify(toks[1].value@) == Ok::<
        TokenType,
        ParseError,
    >(TokenType::Number) && toks[2].value@ == ";"@
}

/// The token sequences a function parse accepts: `int`, an identifier,
/// `( ) {`, a statement, `}`.
pub open spec fn spec_function_tokens(toks: Seq<Token>) -> bool {
    toks.len() >= 9 && toks[0].value@ == "int"@ && spec_classify(toks[1].value@) == Ok::<
        TokenType,
        ParseError,
    >(TokenType::Identifier) && toks[2].value@ == "("@ && toks[3].value@ == ")"@ && toks[4].value@
        == "{"@ && spec_statement_tokens(toks.skip(5)) && toks[8].value@ == "}"@
}

/// The token sequences a program parse accepts: exactly one function and
/// nothing after it.
pub open spec fn spec_program_tokens(toks: Seq<Token>) -> bool {
    toks.len() == 9 && spec_function_tokens(toks)
}

/// A statement parse succeeds exactly on the statement-shaped token
/// sequences, and then consumes three tokens and returns the number's
/// text.
pub proof fn lemma_statement_parse_shape(toks: Seq<Token>)
    ensures
        spec_parse_statement(toks).1 is Ok <==> spec_statement_tokens(toks),
        spec_statement_tokens(toks) ==> spec_parse_statement(toks) == (
            3int,
            Ok::<Seq<char>, ParseError>(toks[1].value@),
        ),
{
    reveal_strlit("return");
    reveal_strlit("int");
    reveal_strlit(";");
    if toks.len() == 0 {
    } else {
        let rest1 = toks.skip(1);
        assert(rest1.len() == toks.len() - 1);
        if spec_classify(toks[0].value@) == Ok::<TokenType, ParseError>(
            TokenType::Keyword(Keyword::Return),
        ) {
            assert(toks[0].value@ == "return"@);
            if rest1.len() > 0 {
                assert(rest1[0] == toks[1]);
                if spec_parse_expression(rest1).1 is Ok {
                    let rest2 = rest1.skip(1);
                    assert(rest2 =~= toks.skip(2));
                    if rest2.len() > 0 {
                        assert(rest2[0] == toks[2]);
                        if toks[2].value@ == ";"@ {
                            assert(";"@.len() == 1);
                            assert("return"@.len() == 6);
                            assert("int"@.len() == 3);
                            assert(spec_is_punct_value(";"@));
                            assert(spec_classify(toks[2].value@) == Ok::<TokenType, ParseError>(
                                TokenType::Punctuation,
                            ));
                        }
                    }
                }
            }
        }
    }
}

/// A function parse succeeds exactly on the function-shaped token
/// sequences, and then consumes nine tokens and returns the identifier's
/// and the number's text.
pub proof fn lemma_function_parse_shape(toks: Seq<Token>)
    ensures
        spec_parse_function(toks).1 is Ok <==> spec_function_tokens(toks),
        spec_function_tokens(toks) ==> spec_parse_function(toks) == (
            9int,
            Ok::<(Seq<char>, Seq<char>), ParseError>((toks[1].value@, toks[6].value@)),
        ),
{
    reveal_strlit("return");
    reveal_strlit("int");
    assert("return"@.len() == 6);
    assert("int"@.len() == 3);
    if toks.len() == 0 {
    } else if spec_classify(toks[0].value@) == Ok::<TokenType, ParseError>(
        TokenType::Keyword(Keyword::Int),
    ) {
        assert(toks[0].value@ == "int"@);
        if toks.len() >= 5 && spec_classify(toks[1].value@) == Ok::<TokenType, ParseError>(
            TokenType::Identifier,
        ) && toks[2].value@ == "("@ && toks[3].value@ == ")"@ && toks[4].value@ == "{"@ {
            let rest = toks.skip(5);
            lemma_statement_parse_shape(rest);
            assert(rest.len() == toks.len() - 5);
            assert(forall|k: int| 0 <= k < rest.len() ==> rest[k] == toks[5 + k]);
            if spec_parse_statement(rest).1 is Ok {
                let rest2 = rest.skip(3);
                assert(rest2 =~= toks.skip(8));
                if rest2.len() > 0 {
                    assert(rest2[0] == toks[8]);
                }
                assert(spec_statement_tokens(rest) ==> rest[1] == toks[6]);
            }
        }
    }
}

/// A program parse succeeds exactly on the program-shaped token sequences:
/// one whole function with no tokens after it.
pub proof fn lemma_program_parse_shape(toks: Seq<Token>)
    ensures
        spec_parse_program(toks).1 is Ok <==> spec_program_tokens(toks),
        spec_program_tokens(toks) ==> spec_parse_program(toks) == (
            9int,
            Ok::<(Seq<char>, Seq<char>), ParseError>((toks[1].value@, toks[6].value@)),
        ),
{
    lemma_function_parse_shape(toks);
    if spec_parse_function(toks).1 is Ok {
        assert(toks.skip(9).len() == toks.len() - 9);
    }
}

/// Parses one expression from the front of `tokens`: a single token of
/// number kind. Any other kind is an [`ParseError::InvalidExpression`].
pub fn parse_expression(tokens: &mut Vec<Token>) -> (r: Result<Expression, ParseError>)
    ensures
        final(tokens)@ == old(tokens)@.skip(spec_parse_expression(old(tokens)@).0),
        match spec_parse_expression(old(tokens)@).1 {
            Ok(v) => r matches Ok(e) && e.value@ == v,
            Err(pe) => r matches Err(q) && q == pe,
        },
        r is Ok <==> old(tokens)@.len() > 0 && spec_classify(old(tokens)@[0].value@) == Ok::<
            TokenType,
            ParseError,
        >(TokenType::Number),
{
    if tokens.is_empty() {
        proof {
            assert(old(tokens)@.skip(0) =~= old(tokens)@);
        }
        return Err(ParseError::UnexpectedEndOfInput);
    }

    let token = tokens.remove(0);
    proof {
        assert(old(tokens)@.remove(0) =~= old(tokens)@.skip(1));
    }

    let token_type = match get_token_type(&token) {
        Ok(t) => t,
        Err(e) => {
            return Err(e);
        },
    };

    if token_type != TokenType::Number {
        return Err(ParseError::InvalidExpression);
    }

    Ok(Expression { value: token.value })
}

/// Parses one statement from the front of `tokens`: the keyword `return`,
/// one expression, and a closing `;`.
pub fn parse_statement(tokens: &mut Vec<Token>) -> (r: Result<Statement, ParseError>)
    ensures
        final(tokens)@ == old(tokens)@.skip(spec_parse_statement(old(tokens)@).0),
        match spec_parse_statement(old(tokens)@).1 {
            Ok(v) => r matches Ok(s) && s.expression.value@ == v,
            Err(pe) => r matches Err(q) && q == pe,
        },
        r is Ok <==> spec_statement_tokens(old(tokens)@),
{
    proof {
        lemma_statement_parse_shape(old(tokens)@);
    }
    if tokens.is_empty() {
        proof {
            assert(old(tokens)@.skip(0) =~= old(tokens)@);
        }
        return Err(ParseError::UnexpectedEndOfInput);
    }

    let token = tokens.remove(0);
    proof {
        assert(old(tokens)@.remove(0) =~= old(tokens)@.skip(1));
    }

    let token_type = match get_token_type(&token) {
        Ok(t) => t,
        Err(e) => {
            return Err(e);
        },
    };

    if token_type != TokenType::Keyword(Keyword::Return) {
        return Err(ParseError::UnexpectedToken);
    }

    let ghost rest1 = old(tokens)@.skip(1);
    let expression = match parse_expression(tokens) {
        Ok(e) => e,
        Err(e) => {
            return Err(e);
        },
    };

    if tokens.is_empty() {
        return Err(ParseError::UnexpectedEndOfInput);
    }

    let token = tokens.remove(0);
    proof {
        assert(rest1.skip(1)[0] == old(tokens)@[2]);
        assert(rest1.skip(1).remove(0) =~= rest1.skip(1).skip(1));
    }

    let token_type = match get_token_type(&token) {
        Ok(t) => t,
        Err(e) => {
            return Err(e);
        },
    };

    if token_type != TokenType::Punctuation || !value_is(&token.value, ";") {
        return Err(ParseError::UnexpectedToken);
    }

    Ok(Statement { expression })
}

/// Parses one function from the front of `tokens`: the keyword `int`, an
/// identifier naming the function, the literal `(`, `)` and `{`, one
/// statement, and the closing `}`.
pub fn parse_function(tokens: &mut Vec<Token>) -> (r: Result<Function, ParseError>)
    ensures
        final(tokens)@ == old(tokens)@.skip(spec_parse_function(old(tokens)@).0),
        match spec_parse_function(old(tokens)@).1 {
            Ok(m) => r matches Ok(f) && f.identifier@ == m.0 && f.statement.expression.value@
                == m.1,
            Err(pe) => r matches Err(q) && q == pe,
        },
        r is Ok <==> spec_function_tokens(old(tokens)@),
{
    proof {
        lemma_function_parse_shape(old(tokens)@);
    }
    if tokens.is_empty() {
        proof {
            assert(old(tokens)@.skip(0) =~= old(tokens)@);
        }
        return Err(ParseError::UnexpectedEndOfInput);
    }

    let token = tokens.remove(0);
    proof {
        assert(old(tokens)@.remove(0) =~= old(tokens)@.skip(1));
    }
    let token_type = match get_token_type(&token) {
        Ok(t) => t,
        Err(e) => {
            return Err(e);
        },
    };
    if token_type != TokenType::Keyword(Keyword::Int) {
        return Err(ParseError::UnexpectedToken);
    }

    if tokens.is_empty() {
        return Err(ParseError::UnexpectedEndOfInput);
    }
    let token = tokens.remove(0);
    proof {
        assert(old(tokens)@.skip(1)[0] == old(tokens)@[1]);
        assert(old(tokens)@.skip(1).remove(0) =~= old(tokens)@.skip(2));
    }
    let token_type = match get_token_type(&token) {
        Ok(t) => t,
        Err(e) => {
            return Err(e);
        },
    };
    if token_type != TokenType::Identifier {
        return Err(ParseError::UnexpectedToken);
    }
    let identifier = token.value;

    if tokens.is_empty() {
        return Err(ParseError::UnexpectedEndOfInput);
    }
    let token = tokens.remove(0);
    proof {
        assert(old(tokens)@.skip(2)[0] == old(tokens)@[2]);
        assert(old(tokens)@.skip(2).remove(0) =~= old(tokens)@.skip(3));
    }
    if !value_is(&token.value, "(") {
        return Err(ParseError::UnexpectedToken);
    }

    if tokens.is_empty() {
        return Err(ParseError::UnexpectedEndOfInput);
    }
    let token = tokens.remove(0);
    proof {
        assert(old(tokens)@.skip(3)[0] == old(tokens)@[3]);
        assert(old(tokens)@.skip(3).remove(0) =~= old(tokens)@.skip(4));
    }
    if !value_is(&token.value, ")") {
        return Err(ParseError::UnexpectedToken);
    }

    if tokens.is_empty() {
        return Err(ParseError::UnexpectedEndOfInput);
    }
    let token = tokens.remove(0);
    proof {
        assert(old(tokens)@.skip(4)[0] == old(tokens)@[4]);
        assert(old(tokens)@.skip(4).remove(0) =~= old(tokens)@.skip(5));
    }
    if !value_is(&token.value, "{") {
        return Err(ParseError::UnexpectedToken);
    }

    let ghost rest = old(tokens)@.skip(5);
    let statement = match parse_statement(tokens) {
        Ok(s) => s,
        Err(e) => {
            return Err(e);
        },
    };

    if tokens.is_empty() {
        return Err(ParseError::UnexpectedEndOfInput);
    }
    let token = tokens.remove(0);
    proof {
        assert(rest.skip(3).remove(0) =~= rest.skip(3).skip(1));
    }
    if !value_is(&token.value, "}") {
        return Err(ParseError::UnexpectedToken);
    }

    Ok(Function { identifier, statement })
}

/// Parses a whole program: exactly one function, with no tokens left over.
pub fn parse_program(tokens: &mut Vec<Token>) -> (r: Result<Program, ParseError>)
    ensures
        final(tokens)@ == old(tokens)@.skip(spec_parse_program(old(tokens)@).0),
        match spec_parse_program(old(tokens)@).1 {
            Ok(m) => r matches Ok(p) && p.function.identifier@ == m.0
                && p.function.statement.expression.value@ == m.1,
            Err(pe) => r matches Err(q) && q == pe,
        },
        r is Ok <==> spec_program_tokens(old(tokens)@),
        r is Ok ==> final(tokens)@.len() == 0,
{
    proof {
        lemma_program_parse_shape(old(tokens)@);
    }
    let function = match parse_function(tokens) {
        Ok(f) => f,
        Err(e) => {
            return Err(e);
        },
    };
    if !tokens.is_empty() {
        return Err(ParseError::UnexpectedToken);
    }
    Ok(Program { function })
}

} // verus!
