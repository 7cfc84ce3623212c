use zinc::cursor::{BidirctionalIterator, TokenIter};
use zinc::operator::Operator;
use zinc::token::{Literal, Token};

fn sample() -> Vec<Token> {
    vec![
        Token::Literal(Literal::Integer(1)),
        Token::Whitespace { value: ' ' },
        Token::Op(Operator::Add(false)),
        Token::Comment("c".to_string()),
        Token::Literal(Literal::Integer(2)),
    ]
}

#[test]
fn walks_both_ways() {
    let mut it = TokenIter::new(sample());
    assert_eq!(it.peek_prev(), None);
    assert_eq!(it.prev(), None);
    assert_eq!(it.current(), Some(Token::Literal(Literal::Integer(1))));
    assert_eq!(it.peek_next(), Some(Token::Whitespace { value: ' ' }));
    assert_eq!(it.next(), Some(Token::Literal(Literal::Integer(1))));
    assert_eq!(it.next(), Some(Token::Whitespace { value: ' ' }));
    assert_eq!(it.peek_prev(), Some(Token::Whitespace { value: ' ' }));
    assert_eq!(it.prev(), Some(Token::Whitespace { value: ' ' }));
    assert_eq!(it.current(), Some(Token::Whitespace { value: ' ' }));
}

#[test]
fn next_stops_at_end() {
    let mut it = TokenIter::new(vec![Token::Comma]);
    assert_eq!(it.next(), Some(Token::Comma));
    assert_eq!(it.next(), None);
    assert_eq!(it.next(), None);
    assert_eq!(it.current(), None);
    assert_eq!(it.peek_next(), None);
    assert_eq!(it.prev(), Some(Token::Comma));
}

#[test]
fn empty_cursor() {
    let mut it = TokenIter::new(vec![]);
    assert_eq!(it.current(), None);
    assert_eq!(it.next(), None);
    assert_eq!(it.prev(), None);
    assert_eq!(it.peek_prev(), None);
}

#[test]
fn trait_methods_agree() {
    let mut it = TokenIter::new(sample());
    assert_eq!(BidirctionalIterator::next(&mut it), Some(Token::Literal(Literal::Integer(1))));
    assert_eq!(BidirctionalIterator::current(&mut it), Some(Token::Whitespace { value: ' ' }));
    assert_eq!(BidirctionalIterator::peek_next(&mut it), Some(Token::Op(Operator::Add(false))));
    assert_eq!(BidirctionalIterator::peek_prev(&mut it), Some(Token::Literal(Literal::Integer(1))));
    assert_eq!(BidirctionalIterator::prev(&mut it), Some(Token::Literal(Literal::Integer(1))));
}

fn significant(t: &Token) -> bool {
    !matches!(t, Token::Comment(_) | Token::Whitespace { .. })
}

fn collect(mut it: TokenIter) -> Vec<Token> {
    let mut v = vec![];
    while let Some(t) = it.next() {
        v.push(t);
    }
    v
}

#[test]
fn filter_keeps_order_and_resets_position() {
    let mut it = TokenIter::new(sample());
    it.next();
    it.next();
    let f = it.filter(significant);
    assert_eq!(f.current(), Some(Token::Literal(Literal::Integer(1))));
    assert_eq!(
        collect(f),
        vec![
            Token::Literal(Literal::Integer(1)),
            Token::Op(Operator::Add(false)),
            Token::Literal(Literal::Integer(2)),
        ]
    );
}

#[test]
fn filtering_twice_changes_nothing() {
    let once = TokenIter::new(sample()).filter(significant);
    let twice = once.clone().filter(significant);
    assert_eq!(collect(once), collect(twice));
}
