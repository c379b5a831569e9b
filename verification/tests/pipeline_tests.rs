use rustiler::generate::generate_assembly;
use rustiler::parser::{
    get_token_type, is_identifier, parse_expression, parse_function, parse_program,
    parse_statement, Expression, Function, Keyword, ParseError, Program, Statement, TokenType,
};
use rustiler::tokenizer::{tokenize, Token};
use rustiler::Config;

fn values(tokens: &[Token]) -> Vec<String> {
    tokens.iter().map(|t| t.value.clone()).collect()
}

#[test]
fn whitespace_only_source_yields_no_tokens() {
    let tokens = tokenize(String::from("   \r\n \n  ")).unwrap();
    assert!(tokens.is_empty());
}

#[test]
fn empty_source_yields_no_tokens() {
    let tokens = tokenize(String::new()).unwrap();
    assert!(tokens.is_empty());
}

#[test]
fn run_bordered_by_whitespace_is_one_token() {
    let tokens = tokenize(String::from("  foo \r ")).unwrap();
    assert_eq!(values(&tokens), vec!["foo"]);
    assert_eq!(tokens[0].line, 1);
}

#[test]
fn several_runs_come_out_in_source_order() {
    let tokens = tokenize(String::from("alpha beta \r gamma")).unwrap();
    assert_eq!(values(&tokens), vec!["alpha", "beta", "gamma"]);
}

#[test]
fn punctuation_ends_the_preceding_token() {
    let tokens = tokenize(String::from("main()")).unwrap();
    assert_eq!(values(&tokens), vec!["main", "(", ")"]);
}

#[test]
fn tokens_are_tagged_with_the_line_they_begin_on() {
    let tokens = tokenize(String::from("a\nbc\n\nd")).unwrap();
    assert_eq!(values(&tokens), vec!["a", "bc", "d"]);
    assert_eq!(tokens[0].line, 1);
    assert_eq!(tokens[1].line, 2);
    assert_eq!(tokens[2].line, 4);
}

#[test]
fn rejoining_token_values_retokenizes_to_the_same_values() {
    let source = "int main() {
        return 2;
        }";
    let tokens = tokenize(String::from(source)).unwrap();
    let rejoined = values(&tokens).join(" ");
    let again = tokenize(rejoined).unwrap();
    assert_eq!(values(&again), values(&tokens));
    for token in &again {
        assert_eq!(token.line, 1);
    }
}

#[test]
fn keywords_and_punctuation_classify_first() {
    assert_eq!(
        get_token_type(&Token::build("return", 1)).unwrap(),
        TokenType::Keyword(Keyword::Return)
    );
    assert_eq!(
        get_token_type(&Token::build("int", 1)).unwrap(),
        TokenType::Keyword(Keyword::Int)
    );
    for p in ["{", "}", "(", ")", ";"] {
        assert_eq!(
            get_token_type(&Token::build(p, 1)).unwrap(),
            TokenType::Punctuation
        );
    }
    assert_eq!(
        get_token_type(&Token::build("0", 1)).unwrap(),
        TokenType::Number
    );
}

#[test]
fn unclassifiable_text_is_a_classification_error() {
    assert_eq!(
        get_token_type(&Token::build("2724er", 1)),
        Err(ParseError::ClassificationError)
    );
    assert_eq!(
        get_token_type(&Token::build("$", 1)),
        Err(ParseError::ClassificationError)
    );
    let mut tokens = vec![Token::build("2724er", 1)];
    assert_eq!(
        parse_expression(&mut tokens),
        Err(ParseError::ClassificationError)
    );
}

#[test]
fn exhausted_tokens_are_an_unexpected_end_of_input() {
    let mut tokens: Vec<Token> = Vec::new();
    assert_eq!(
        parse_expression(&mut tokens),
        Err(ParseError::UnexpectedEndOfInput)
    );

    let mut tokens = vec![Token::build("return", 1)];
    assert!(matches!(
        parse_statement(&mut tokens),
        Err(ParseError::UnexpectedEndOfInput)
    ));

    let mut tokens = tokenize(String::from("int main() { return 2;")).unwrap();
    assert!(matches!(
        parse_program(&mut tokens),
        Err(ParseError::UnexpectedEndOfInput)
    ));
}

#[test]
fn wrong_kind_in_function_header_is_an_unexpected_token() {
    let mut tokens = tokenize(String::from("int 3() { return 2; }")).unwrap();
    assert!(matches!(
        parse_function(&mut tokens),
        Err(ParseError::UnexpectedToken)
    ));
}

#[test]
fn leftover_tokens_after_the_function_are_an_unexpected_token() {
    let mut tokens = tokenize(String::from("int main() { return 2; } ;")).unwrap();
    assert!(matches!(
        parse_program(&mut tokens),
        Err(ParseError::UnexpectedToken)
    ));
}

#[test]
fn whole_function_parses_and_consumes_its_tokens() {
    let mut tokens = tokenize(String::from("int main() { return 2; }")).unwrap();
    let function = parse_function(&mut tokens).unwrap();
    assert_eq!(function.identifier, "main");
    assert_eq!(function.statement.expression.value, "2");
    assert!(tokens.is_empty());
}

#[test]
fn generated_assembly_is_the_exact_listing() {
    let ast = Program {
        function: Function {
            identifier: String::from("main"),
            statement: Statement {
                expression: Expression {
                    value: String::from("42"),
                },
            },
        },
    };
    let assembly = generate_assembly(ast);
    assert_eq!(assembly, " .globl _main\n_main:\n movl    $42, %eax\n ret");
    assert!(assembly.contains("_main:\n movl    $42, %eax\n ret"));
}

#[test]
fn source_to_assembly_end_to_end() {
    let mut tokens = tokenize(String::from("int main() {\n return 2;\n }")).unwrap();
    let ast = parse_program(&mut tokens).unwrap();
    let assembly = generate_assembly(ast);
    assert_eq!(assembly, " .globl _main\n_main:\n movl    $2, %eax\n ret");
}

#[test]
fn config_requires_a_c_file_argument() {
    let args = vec![String::from("prog"), String::from("hello.c")];
    let config = Config::build(&args).unwrap();
    assert_eq!(config.file_path, "hello.c");

    let args = vec![String::from("prog")];
    assert_eq!(Config::build(&args).err(), Some("No file provided"));

    let args = vec![String::from("prog"), String::from("hello.rs")];
    assert_eq!(
        Config::build(&args).err(),
        Some("File does not end in .c")
    );
}

#[test]
fn identifiers_follow_the_unicode_alphabetic_property() {
    // U+00E9 (a letter) is alphabetic; U+00B2 (superscript two) is not
    assert!(is_identifier("caf\u{e9}"));
    assert!(!is_identifier("caf\u{e9}3"));
    assert_eq!(
        get_token_type(&Token::build("\u{b2}", 1)),
        Err(ParseError::ClassificationError)
    );

    let mut tokens = tokenize(String::from("int caf\u{e9}() { return 2; }")).unwrap();
    let ast = parse_program(&mut tokens).unwrap();
    assert_eq!(ast.function.identifier, "caf\u{e9}");
}

#[test]
fn token_build_keeps_value_and_line() {
    let token = Token::build("answer", 7);
    assert_eq!(token.value, "answer");
    assert_eq!(token.line, 7);
}
