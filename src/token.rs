//! Lexical units and their models.
use vstd::prelude::*;
use crate::keyword::Keyword;
use crate::operator::Operator;

verus! {

/// Relies on `FromIterator<&char>` for `String`: the string holds exactly the given characters.
#[verifier::external_body]
pub(crate) fn string_of(cs: &[char]) -> (r: String)
    ensures
        r@ == cs@,
{
    cs.iter().collect()
}

/// Relies on `str::chars` with `collect`: the characters of `s`, in order.
#[verifier::external_body]
pub(crate) fn chars_of(s: &str) -> (r: Vec<char>)
    ensures
        r@ == s@,
{
    s.chars().collect()
}

/// A name: a letter or `_`, followed by letters, digits and `_`.
#[derive(Debug, Clone, PartialEq)]
pub struct Identifier {
    /// The name as written.
    pub name: String,
}

impl Identifier {
    /// Makes an identifier of the given name.
    pub fn new(name: String) -> (r: Identifier)
        ensures
            r.name@ == name@,
    {
        Identifier { name }
    }
}

/// A literal value. A float is kept as its decimal text, exactly as written.
#[derive(Debug, Clone, PartialEq)]
pub enum Literal {
    /// String literal, without its quotes
    String(String),
    /// Integer literal
    Integer(i32),
    /// Float literal, as its decimal text
    Float(String),
    /// Boolean literal
    Bool(bool),
}

/// The mathematical model of a [Literal].
pub enum LiteralModel {
    Str(Seq<char>),
    Integer(i32),
    Float(Seq<char>),
    Bool(bool),
}

impl View for Literal {
    type V = LiteralModel;

    open spec fn view(&self) -> LiteralModel {
        match self {
            Literal::String(s) => LiteralModel::Str(s@),
            Literal::Integer(i) => LiteralModel::Integer(*i),
            Literal::Float(s) => LiteralModel::Float(s@),
            Literal::Bool(b) => LiteralModel::Bool(*b),
        }
    }
}

impl Literal {
    /// A copy of the literal.
    pub fn duplicate(&self) -> (r: Literal)
        ensures
            r@ == self@,
    {
        match self {
            Literal::String(s) => Literal::String(s.clone()),
            Literal::Integer(i) => Literal::Integer(*i),
            Literal::Float(s) => Literal::Float(s.clone()),
            Literal::Bool(b) => Literal::Bool(*b),
        }
    }
}

/// A lexical unit.
#[derive(Debug, Clone, PartialEq)]
pub enum Token {
    /// `(`
    LParen,
    /// `)`
    RParen,
    /// `{`
    LBrace,
    /// `}`
    RBrace,
    /// `[`
    LBracket,
    /// `]`
    RBracket,
    /// `;`
    SemiColon,
    /// `:`
    Colon,
    /// `.`
    Dot,
    /// `,`
    Comma,
    /// A space, tab or newline
    Whitespace {
        /// The whitespace character
        value: char,
    },
    /// An operator
    Op(Operator),
    /// A name
    Identifier(Identifier),
    /// A literal value
    Literal(Literal),
    /// A reserved word
    Keyword(Keyword),
    /// A line comment: the text after `//`, up to the end of the line
    Comment(String),
}

/// The mathematical model of a [Token].
pub enum TokenModel {
    LParen,
    RParen,
    LBrace,
    RBrace,
    LBracket,
    RBracket,
    SemiColon,
    Colon,
    Dot,
    Comma,
    Whitespace(char),
    Op(Operator),
    Identifier(Seq<char>),
    Literal(LiteralModel),
    Keyword(Keyword),
    Comment(Seq<char>),
}

impl View for Token {
    type V = TokenModel;

    open spec fn view(&self) -> TokenModel {
        match self {
            Token::LParen => TokenModel::LParen,
            Token::RParen => TokenModel::RParen,
            Token::LBrace => TokenModel::LBrace,
            Token::RBrace => TokenModel::RBrace,
            Token::LBracket => TokenModel::LBracket,
            Token::RBracket => TokenModel::RBracket,
            Token::SemiColon => TokenModel::SemiColon,
            Token::Colon => TokenModel::Colon,
            Token::Dot => TokenModel::Dot,
            Token::Comma => TokenModel::Comma,
            Token::Whitespace { value } => TokenModel::Whitespace(*value),
            Token::Op(o) => TokenModel::Op(*o),
            Token::Identifier(id) => TokenModel::Identifier(id.name@),
            Token::Literal(l) => TokenModel::Literal(l@),
            Token::Keyword(k) => TokenModel::Keyword(*k),
            Token::Comment(c) => TokenModel::Comment(c@),
        }
    }
}

/// The models of a sequence of tokens.
pub open spec fn tokens_view(ts: Seq<Token>) -> Seq<TokenModel> {
    ts.map_values(|t: Token| t@)
}

/// Decimal digits of a natural number.
pub open spec fn nat_text(n: nat) -> Seq<char>
    decreases n,
{
    if n < 10 {
        seq![digit_char(n)]
    } else {
        nat_text(n / 10).push(digit_char(n % 10))
    }
}

/// The character of a decimal digit.
pub open spec fn digit_char(d: nat) -> char {
    ((d + 48) as u8) as char
}

/// Decimal text of an integer, with a leading `-` when it is negative.
pub open spec fn int_text(i: int) -> Seq<char> {
    if i < 0 {
        seq!['-'] + nat_text((-i) as nat)
    } else {
        nat_text(i as nat)
    }
}

/// How a literal is written in source text.
pub open spec fn literal_text(l: LiteralModel) -> Seq<char> {
    match l {
        LiteralModel::Str(s) => seq!['"'] + s + seq!['"'],
        LiteralModel::Integer(i) => int_text(i as int),
        LiteralModel::Float(s) => s,
        LiteralModel::Bool(b) => if b {
            seq!['t', 'r', 'u', 'e']
        } else {
            seq!['f', 'a', 'l', 's', 'e']
        },
    }
}

/// How a token is written in source text.
pub open spec fn token_text(t: TokenModel) -> Seq<char> {
    match t {
        TokenModel::LParen => seq!['('],
        TokenModel::RParen => seq![')'],
        TokenModel::LBrace => seq!['{'],
        TokenModel::RBrace => seq!['}'],
        TokenModel::LBracket => seq!['['],
        TokenModel::RBracket => seq![']'],
        TokenModel::SemiColon => seq![';'],
        TokenModel::Colon => seq![':'],
        TokenModel::Dot => seq!['.'],
        TokenModel::Comma => seq![','],
        TokenModel::Whitespace(c) => seq![c],
        TokenModel::Op(o) => o.spelling(),
        TokenModel::Identifier(n) => n,
        TokenModel::Literal(l) => literal_text(l),
        TokenModel::Keyword(k) => k.spelling(),
        TokenModel::Comment(c) => seq!['/', '/'] + c,
    }
}

/// Appends the decimal digits of `n` to `out`.
fn push_digits(out: &mut Vec<char>, n: u32)
    ensures
        final(out)@ == old(out)@ + nat_text(n as nat),
    decreases n,
{
    if n >= 10 {
        push_digits(out, n / 10);
    }
    let d: u32 = n % 10;
    let c = ((d as u8) + 48u8) as char;
    out.push(c);
    assert(final(out)@ =~= old(out)@ + nat_text(n as nat));
}

fn one_char(c: char) -> (r: Vec<char>)
    ensures
        r@ == seq![c],
{
    let mut r: Vec<char> = Vec::new();
    r.push(c);
    assert(r@ =~= seq![c]);
    r
}

impl Literal {
    /// The characters of the literal as written in source text.
    pub fn render_chars(&self) -> (r: Vec<char>)
        ensures
            r@ == literal_text(self@),
    {
        match self {
            Literal::String(s) => {
                let mut out = one_char('"');
                let mut body = chars_of(s.as_str());
                out.append(&mut body);
                out.push('"');
                assert(out@ =~= literal_text(self@));
                out
            },
            Literal::Integer(i) => {
                let mut out: Vec<char> = Vec::new();
                if *i < 0 {
                    out.push('-');
                    let m: i64 = -(*i as i64);
                    push_digits(&mut out, m as u32);
                } else {
                    push_digits(&mut out, *i as u32);
                }
                assert(out@ =~= literal_text(self@));
                out
            },
            Literal::Float(s) => chars_of(s.as_str()),
            Literal::Bool(b) => {
                let out = if *b {
                    vec!['t', 'r', 'u', 'e']
                } else {
                    vec!['f', 'a', 'l', 's', 'e']
                };
                assert(out@ =~= literal_text(self@));
                out
            },
        }
    }
}

impl Token {
    /// The token as written in source text: a string literal in double quotes,
    /// a comment after `//`, an operator with its `=` when it is a compound assignment.
    pub fn render(&self) -> (r: String)
        ensures
            r@ == token_text(self@),
    {
        let out: Vec<char> = match self {
            Token::LParen => one_char('('),
            Token::RParen => one_char(')'),
            Token::LBrace => one_char('{'),
            Token::RBrace => one_char('}'),
            Token::LBracket => one_char('['),
            Token::RBracket => one_char(']'),
            Token::SemiColon => one_char(';'),
            Token::Colon => one_char(':'),
            Token::Dot => one_char('.'),
            Token::Comma => one_char(','),
            Token::Whitespace { value } => one_char(*value),
            Token::Op(o) => o.render(),
            Token::Identifier(id) => chars_of(id.name.as_str()),
            Token::Literal(l) => l.render_chars(),
            Token::Keyword(k) => k.render(),
            Token::Comment(c) => {
                let mut out = one_char('/');
                out.push('/');
                let mut body = chars_of(c.as_str());
                out.append(&mut body);
                assert(out@ =~= token_text(self@));
                out
            },
        };
        string_of(out.as_slice())
    }

    /// A copy of the token.
    pub fn duplicate(&self) -> (r: Token)
        ensures
            r@ == self@,
    {
        match self {
            Token::LParen => Token::LParen,
            Token::RParen => Token::RParen,
            Token::LBrace => Token::LBrace,
            Token::RBrace => Token::RBrace,
            Token::LBracket => Token::LBracket,
            Token::RBracket => Token::RBracket,
            Token::SemiColon => Token::SemiColon,
            Token::Colon => Token::Colon,
            Token::Dot => Token::Dot,
            Token::Comma => Token::Comma,
            Token::Whitespace { value } => Token::Whitespace { value: *value },
            Token::Op(o) => Token::Op(*o),
            Token::Identifier(id) => Token::Identifier(Identifier { name: id.name.clone() }),
            Token::Literal(l) => Token::Literal(l.duplicate()),
            Token::Keyword(k) => Token::Keyword(*k),
            Token::Comment(c) => Token::Comment(c.clone()),
        }
    }
}

} // verus!
