use rustiler::parser::{
    get_token_type, is_identifier, is_number, parse_expression, parse_program, parse_statement,
    Expression, ParseError, Statement, TokenType,
};
use rustiler::tokenizer::{tokenize, Token};

#[test]
fn numbers() {
    assert!(!is_number(""));
    assert!(!is_number("0128734"));
    assert!(!is_number("2724er"));
    assert!(!is_number("239 923"));
    assert!(is_number("0"));
    assert!(is_number("1829"));
}

#[test]
fn identifiers() {
    assert!(!is_identifier(""));
    assert!(!is_identifier("89fjoe"));
    assert!(!is_identifier("yo mama"));
    assert!(!is_identifier("yo_mama_3"));
}

#[test]
fn token_types() {
    let mut token = Token::build("tugvuiz", 0);
    assert_eq!(TokenType::Identifier, get_token_type(&token).unwrap());

    token = Token::build("3414", 0);
    assert_eq!(TokenType::Number, get_token_type(&token).unwrap());
}

#[test]
fn expressions() {
    let mut tokens: Vec<Token> = Vec::new();
    tokens.push(Token::build("oiur", 0));

    let expression_1 = parse_expression(&mut tokens);
    assert_eq!(expression_1, Err(ParseError::InvalidExpression));

    tokens = Vec::new();
    let number = "378547";
    tokens.push(Token::build(number, 0));

    let expression_2 = parse_expression(&mut tokens).unwrap();
    assert_eq!(
        expression_2,
        Expression {
            value: String::from(number)
        }
    );
}

#[test]
fn statements() {
    let mut tokens: Vec<Token> = Vec::new();
    tokens.push(Token::build("return", 0));
    tokens.push(Token::build("34", 0));
    tokens.push(Token::build(";", 0));

    let statement = parse_statement(&mut tokens).unwrap();

    let expression = Expression {
        value: String::from("34"),
    };
    assert_eq!(statement, Statement { expression });
}

#[test]
fn functions() {}

#[test]
fn programs() {}

#[test]
fn simple_program() {
    let program = "int main() {
                         return 2;
                         }";

    let mut tokens = tokenize(String::from(program)).unwrap();

    let ast = parse_program(&mut tokens).unwrap();

    assert_eq!(ast.function.identifier, "main");
    assert_eq!(ast.function.statement.expression.value, "2");
}

#[test]
fn wrong_keyword() {
    let program = "int main() {
            retun 2;
            }";

    let mut tokens = tokenize(String::from(program)).unwrap();

    let result = parse_program(&mut tokens);
    assert_eq!(result.err(), Some(ParseError::UnexpectedToken));
}
