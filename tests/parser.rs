use zinc::ast::{Block, Expression, Statement};
use zinc::cursor::TokenIter;
use zinc::operator::Operator;
use zinc::token::{Identifier, Literal, Token};
use zinc::tokenizer::{LexError, Tokenizer};
use zinc::wayfarer::{Expected, ParseError, Wayfarer};

#[derive(Debug, PartialEq)]
enum Failure {
    Lex(LexError),
    Parse(ParseError),
}

fn parse(src: &str) -> Result<Block, Failure> {
    let mut tokenizer = Tokenizer::default();
    tokenizer.tokenize(src.to_string()).map_err(Failure::Lex)?;
    Wayfarer::new(tokenizer).generate().map_err(Failure::Parse)
}

fn integer(n: i32) -> Expression {
    Expression::Literal(Literal::Integer(n))
}

fn name(s: &str) -> Identifier {
    Identifier::new(s.to_string())
}

fn reference(s: &str) -> Expression {
    Expression::Reference(name(s))
}

fn binary(operator: Operator, left: Expression, right: Expression) -> Expression {
    Expression::BinaryOp { operator, left: Box::new(left), right: Box::new(right) }
}

fn block(statements: Vec<Statement>, trailing_value: Expression) -> Block {
    Block { statements, trailing_value }
}

#[test]
fn let_binding_of_a_sum() {
    assert_eq!(
        parse("let x = 3 + 4").unwrap(),
        block(
            vec![Statement::Binding {
                identifier: name("x"),
                value: binary(Operator::Add(false), integer(3), integer(4)),
                mutable: false,
            }],
            Expression::Unit,
        )
    );
}

#[test]
fn if_with_else() {
    let root = parse("if x > 0 { ret x } else { ret 0 }").unwrap();
    assert_eq!(root.statements.len(), 1);
    assert_eq!(root.trailing_value, Expression::Unit);
    match &root.statements[0] {
        Statement::If { condition, then_block, else_block } => {
            assert_eq!(*condition, binary(Operator::GreaterThan(false), reference("x"), integer(0)));
            assert_eq!(*then_block, block(vec![], reference("x")));
            assert_eq!(*else_block, Some(block(vec![], integer(0))));
        }
        other => panic!("not an if: {:?}", other),
    }
}

#[test]
fn comment_is_dropped_before_parsing() {
    let mut tokenizer = Tokenizer::default();
    tokenizer.tokenize("// comment\nx".to_string()).unwrap();
    assert_eq!(tokenizer.tokens()[0], Token::Comment(" comment".to_string()));
    assert_eq!(
        Wayfarer::new(tokenizer).generate().unwrap(),
        block(vec![Statement::Expression(reference("x"))], Expression::Unit)
    );
}

#[test]
fn missing_closing_paren() {
    assert_eq!(parse("(1 + 2"), Err(Failure::Parse(ParseError::UnbalancedDelimiter)));
}

#[test]
fn unterminated_string_stops_parsing() {
    assert_eq!(parse("\"unterminated"), Err(Failure::Lex(LexError::UnterminatedLiteral)));
}

#[test]
fn balanced_delimiters_never_unbalanced() {
    for src in ["(1 + 2)", "{ x }", "[ ]", "((a))", "{ (1) [2] }", "let = )("] {
        let r = parse(src);
        if src == "let = )(" {
            assert_eq!(r, Err(Failure::Parse(ParseError::UnbalancedDelimiter)));
        } else {
            assert_ne!(r, Err(Failure::Parse(ParseError::UnbalancedDelimiter)), "{}", src);
        }
    }
}

#[test]
fn extra_closer_is_unbalanced() {
    for src in ["1 + 2)", "}", "{ x }}", "let x = 1 ]", "(1 ]", "let = )"] {
        assert_eq!(parse(src), Err(Failure::Parse(ParseError::UnbalancedDelimiter)), "{}", src);
    }
}

#[test]
fn operators_associate_to_the_left() {
    assert_eq!(
        parse("1 - 2 - 3").unwrap(),
        block(
            vec![Statement::Expression(binary(
                Operator::Sub(false),
                binary(Operator::Sub(false), integer(1), integer(2)),
                integer(3),
            ))],
            Expression::Unit,
        )
    );
}

#[test]
fn parentheses_group() {
    assert_eq!(
        parse("1 * (2 + 3)").unwrap(),
        block(
            vec![Statement::Expression(binary(
                Operator::Mul(false),
                integer(1),
                binary(Operator::Add(false), integer(2), integer(3)),
            ))],
            Expression::Unit,
        )
    );
}

#[test]
fn unary_operators() {
    assert_eq!(
        parse("-5").unwrap(),
        block(
            vec![Statement::Expression(Expression::UnaryOp {
                operator: Operator::Sub(false),
                operand: Box::new(integer(5)),
            })],
            Expression::Unit,
        )
    );
    assert_eq!(
        parse("x !").unwrap(),
        block(
            vec![Statement::Expression(Expression::UnaryOp {
                operator: Operator::Not(false),
                operand: Box::new(reference("x")),
            })],
            Expression::Unit,
        )
    );
}

#[test]
fn mutable_binding_and_reassignment() {
    assert_eq!(
        parse("let mut y = 1; y = y + 1").unwrap(),
        block(
            vec![
                Statement::Binding { identifier: name("y"), value: integer(1), mutable: true },
                Statement::Reassignment {
                    identifier: name("y"),
                    value: binary(Operator::Add(false), reference("y"), integer(1)),
                },
            ],
            Expression::Unit,
        )
    );
}

#[test]
fn while_and_nested_block() {
    assert_eq!(
        parse("while i < 3 { i += 1 } { ret i }").unwrap(),
        block(
            vec![
                Statement::While {
                    condition: binary(Operator::LessThan(false), reference("i"), integer(3)),
                    body: block(
                        vec![Statement::Expression(binary(Operator::Add(true), reference("i"), integer(1)))],
                        Expression::Unit,
                    ),
                },
                Statement::NestedBlock(block(vec![], reference("i"))),
            ],
            Expression::Unit,
        )
    );
}

#[test]
fn else_if_chains() {
    let root = parse("if a { 1 } else if b { 2 } else { 3 }").unwrap();
    let inner = Statement::If {
        condition: reference("b"),
        then_block: block(vec![Statement::Expression(integer(2))], Expression::Unit),
        else_block: Some(block(vec![Statement::Expression(integer(3))], Expression::Unit)),
    };
    assert_eq!(
        root,
        block(
            vec![Statement::If {
                condition: reference("a"),
                then_block: block(vec![Statement::Expression(integer(1))], Expression::Unit),
                else_block: Some(block(vec![inner], Expression::Unit)),
            }],
            Expression::Unit,
        )
    );
}

#[test]
fn top_level_ret_gives_value() {
    assert_eq!(parse("x; ret 7;").unwrap(), block(vec![Statement::Expression(reference("x"))], integer(7)));
}

#[test]
fn empty_program() {
    assert_eq!(parse("").unwrap(), block(vec![], Expression::Unit));
    assert_eq!(parse("  // only a comment").unwrap(), block(vec![], Expression::Unit));
}

#[test]
fn parse_errors() {
    assert_eq!(parse("+"), Err(Failure::Parse(ParseError::EmptyExpression)));
    assert_eq!(parse("let x = ;"), Err(Failure::Parse(ParseError::InvalidOperand(Token::SemiColon))));
    assert_eq!(parse("let x ="), Err(Failure::Parse(ParseError::UnexpectedEndOfInput)));
    assert_eq!(
        parse("let 5 = 1"),
        Err(Failure::Parse(ParseError::UnexpectedToken {
            expected: Expected::Identifier,
            found: Token::Literal(Literal::Integer(5)),
        }))
    );
    assert_eq!(
        parse("let x 1"),
        Err(Failure::Parse(ParseError::UnexpectedToken {
            expected: Expected::Assign,
            found: Token::Literal(Literal::Integer(1)),
        }))
    );
    assert_eq!(
        parse("if x 1"),
        Err(Failure::Parse(ParseError::UnexpectedToken {
            expected: Expected::OpenBrace,
            found: Token::Literal(Literal::Integer(1)),
        }))
    );
    assert_eq!(
        parse("(1 2)"),
        Err(Failure::Parse(ParseError::UnexpectedToken {
            expected: Expected::CloseParen,
            found: Token::Literal(Literal::Integer(2)),
        }))
    );
    assert_eq!(
        parse("{ ret 1 2 }"),
        Err(Failure::Parse(ParseError::UnexpectedToken {
            expected: Expected::EndOfBlock,
            found: Token::Literal(Literal::Integer(2)),
        }))
    );
}

#[test]
fn calls_with_arguments() {
    assert_eq!(
        parse("f(1, x + 2) * g()").unwrap(),
        block(
            vec![Statement::Expression(binary(
                Operator::Mul(false),
                Expression::Call {
                    callee: name("f"),
                    arguments: vec![integer(1), binary(Operator::Add(false), reference("x"), integer(2))],
                },
                Expression::Call { callee: name("g"), arguments: vec![] },
            ))],
            Expression::Unit,
        )
    );
}

#[test]
fn call_errors() {
    assert_eq!(
        parse("f(1 2)"),
        Err(Failure::Parse(ParseError::UnexpectedToken {
            expected: Expected::CloseParen,
            found: Token::Literal(Literal::Integer(2)),
        }))
    );
    assert_eq!(parse("f(1,"), Err(Failure::Parse(ParseError::UnbalancedDelimiter)));
}

#[test]
fn parser_from_a_cursor() {
    let tokens = vec![
        Token::Identifier(name("a")),
        Token::Whitespace { value: ' ' },
        Token::Comment("note".to_string()),
        Token::Op(Operator::Mod(false)),
        Token::Literal(Literal::Integer(2)),
    ];
    assert_eq!(
        Wayfarer::from_cursor(TokenIter::new(tokens)).generate().unwrap(),
        block(
            vec![Statement::Expression(binary(Operator::Mod(false), reference("a"), integer(2)))],
            Expression::Unit,
        )
    );
}
