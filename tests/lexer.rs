use zinc::keyword::Keyword;
use zinc::operator::Operator;
use zinc::token::{Identifier, Literal, Token};
use zinc::tokenizer::{tokenize_source, LexError, Tokenizer};

fn lex(src: &str) -> Result<Vec<Token>, LexError> {
    tokenize_source(src)
}

#[test]
fn structural_tokens() {
    assert_eq!(
        lex("(){}[];:.,").unwrap(),
        vec![
            Token::LParen,
            Token::RParen,
            Token::LBrace,
            Token::RBrace,
            Token::LBracket,
            Token::RBracket,
            Token::SemiColon,
            Token::Colon,
            Token::Dot,
            Token::Comma,
        ]
    );
}

#[test]
fn whitespace_is_kept() {
    assert_eq!(
        lex(" \t\n").unwrap(),
        vec![
            Token::Whitespace { value: ' ' },
            Token::Whitespace { value: '\t' },
            Token::Whitespace { value: '\n' },
        ]
    );
}

#[test]
fn compound_operators_and_arrow() {
    assert_eq!(
        lex("+=-=->==!=<>").unwrap(),
        vec![
            Token::Op(Operator::Add(true)),
            Token::Op(Operator::Sub(true)),
            Token::Op(Operator::Arrow),
            Token::Op(Operator::Equal(true)),
            Token::Op(Operator::Not(true)),
            Token::Op(Operator::LessThan(false)),
            Token::Op(Operator::GreaterThan(false)),
        ]
    );
}

#[test]
fn minus_is_always_an_operator() {
    assert_eq!(
        lex("-5").unwrap(),
        vec![Token::Op(Operator::Sub(false)), Token::Literal(Literal::Integer(5))]
    );
    assert_eq!(
        lex("3-4").unwrap(),
        vec![
            Token::Literal(Literal::Integer(3)),
            Token::Op(Operator::Sub(false)),
            Token::Literal(Literal::Integer(4)),
        ]
    );
}

#[test]
fn comment_runs_to_end_of_line() {
    assert_eq!(
        lex("// comment\nx").unwrap(),
        vec![
            Token::Comment(" comment".to_string()),
            Token::Whitespace { value: '\n' },
            Token::Identifier(Identifier::new("x".to_string())),
        ]
    );
    assert_eq!(lex("//comment").unwrap(), vec![Token::Comment("comment".to_string())]);
}

#[test]
fn string_literal_takes_shortest_body() {
    assert_eq!(
        lex("\"ab\" \"c\"").unwrap(),
        vec![
            Token::Literal(Literal::String("ab".to_string())),
            Token::Whitespace { value: ' ' },
            Token::Literal(Literal::String("c".to_string())),
        ]
    );
}

#[test]
fn unterminated_string_fails() {
    assert_eq!(lex("\"unterminated"), Err(LexError::UnterminatedLiteral));
}

#[test]
fn keywords_booleans_and_names() {
    assert_eq!(
        lex("ret if else func let mut while for lambda class").unwrap()
            .into_iter()
            .filter(|t| !matches!(t, Token::Whitespace { .. }))
            .collect::<Vec<_>>(),
        vec![
            Token::Keyword(Keyword::Return),
            Token::Keyword(Keyword::If),
            Token::Keyword(Keyword::Else),
            Token::Keyword(Keyword::Func),
            Token::Keyword(Keyword::Let),
            Token::Keyword(Keyword::Mut),
            Token::Keyword(Keyword::While),
            Token::Keyword(Keyword::For),
            Token::Keyword(Keyword::Lambda),
            Token::Keyword(Keyword::Class),
        ]
    );
    assert_eq!(lex("true").unwrap(), vec![Token::Literal(Literal::Bool(true))]);
    assert_eq!(lex("false").unwrap(), vec![Token::Literal(Literal::Bool(false))]);
    assert_eq!(
        lex("_ret2").unwrap(),
        vec![Token::Identifier(Identifier::new("_ret2".to_string()))]
    );
    assert_eq!(lex("Ret").unwrap(), vec![Token::Identifier(Identifier::new("Ret".to_string()))]);
}

#[test]
fn integer_bounds() {
    assert_eq!(lex("0").unwrap(), vec![Token::Literal(Literal::Integer(0))]);
    assert_eq!(lex("2147483647").unwrap(), vec![Token::Literal(Literal::Integer(i32::MAX))]);
    assert_eq!(lex("2147483648"), Err(LexError::NumberOutOfRange));
    assert_eq!(lex("99999999999999999999"), Err(LexError::NumberOutOfRange));
    assert_eq!(lex("007").unwrap(), vec![Token::Literal(Literal::Integer(7))]);
}

#[test]
fn integer_round_trip_through_text() {
    for n in [0i32, 1, 9, 10, 42, 65535, 1_000_000, i32::MAX] {
        let text = Token::Literal(Literal::Integer(n)).render();
        assert_eq!(text, n.to_string());
        assert_eq!(lex(&text).unwrap(), vec![Token::Literal(Literal::Integer(n))]);
    }
}

#[test]
fn floats_and_malformed_numbers() {
    assert_eq!(lex("3.14").unwrap(), vec![Token::Literal(Literal::Float("3.14".to_string()))]);
    assert_eq!(lex("1.2.3"), Err(LexError::MalformedNumber));
    assert_eq!(lex("1e5"), Err(LexError::InvalidToken("1e5".to_string())));
    assert_eq!(lex("a.b"), Err(LexError::InvalidToken("a.b".to_string())));
}

#[test]
fn invalid_characters() {
    assert_eq!(lex("#"), Err(LexError::InvalidToken("#".to_string())));
    assert_eq!(lex("x @"), Err(LexError::InvalidToken("@".to_string())));
}

#[test]
fn rendered_tokens_lex_back() {
    let mut tokens = vec![
        Token::LParen,
        Token::RParen,
        Token::LBrace,
        Token::RBrace,
        Token::LBracket,
        Token::RBracket,
        Token::SemiColon,
        Token::Colon,
        Token::Dot,
        Token::Comma,
        Token::Whitespace { value: ' ' },
        Token::Whitespace { value: '\t' },
        Token::Whitespace { value: '\n' },
        Token::Comment(" a comment // with slashes".to_string()),
        Token::Comment(String::new()),
        Token::Op(Operator::Arrow),
    ];
    for flag in [false, true] {
        tokens.extend([
            Token::Op(Operator::Add(flag)),
            Token::Op(Operator::Sub(flag)),
            Token::Op(Operator::Mul(flag)),
            Token::Op(Operator::Div(flag)),
            Token::Op(Operator::Mod(flag)),
            Token::Op(Operator::And(flag)),
            Token::Op(Operator::Or(flag)),
            Token::Op(Operator::Xor(flag)),
            Token::Op(Operator::Equal(flag)),
            Token::Op(Operator::GreaterThan(flag)),
            Token::Op(Operator::LessThan(flag)),
            Token::Op(Operator::Not(flag)),
        ]);
    }
    for t in tokens {
        assert_eq!(lex(&t.render()).unwrap(), vec![t.clone()], "{:?}", t);
    }
}

#[test]
fn rendering_of_each_kind() {
    assert_eq!(Token::Op(Operator::Add(true)).render(), "+=");
    assert_eq!(Token::Op(Operator::Arrow).render(), "->");
    assert_eq!(Token::Comment("x".to_string()).render(), "//x");
    assert_eq!(Token::Literal(Literal::String("hi".to_string())).render(), "\"hi\"");
    assert_eq!(Token::Literal(Literal::Integer(-42)).render(), "-42");
    assert_eq!(Token::Literal(Literal::Integer(i32::MIN)).render(), "-2147483648");
    assert_eq!(Token::Literal(Literal::Bool(false)).render(), "false");
    assert_eq!(Token::Keyword(Keyword::Return).render(), "ret");
    assert_eq!(Token::Identifier(Identifier::new("name".to_string())).render(), "name");
}

#[test]
fn assignment_flag() {
    assert!(Operator::Add(true).is_assignment_op());
    assert!(!Operator::Add(false).is_assignment_op());
    assert!(!Operator::Arrow.is_assignment_op());
}

#[test]
fn tokenizer_appends_and_keeps_tokens_on_error() {
    let mut t = Tokenizer::default();
    assert_eq!(t.tokenize("x".to_string()), Ok(()));
    assert_eq!(t.tokenize("#".to_string()), Err(LexError::InvalidToken("#".to_string())));
    assert_eq!(t.tokenize(";".to_string()), Ok(()));
    assert_eq!(
        t.tokens().clone(),
        vec![Token::Identifier(Identifier::new("x".to_string())), Token::SemiColon]
    );
}

#[test]
fn smallest_integer_cannot_be_written() {
    assert_eq!(lex("-2147483648"), Err(LexError::NumberOutOfRange));
    assert_eq!(
        lex("-2147483647").unwrap(),
        vec![Token::Op(Operator::Sub(false)), Token::Literal(Literal::Integer(i32::MAX))]
    );
}
