//! The parser: builds the syntax tree of a program from its tokens.
//!
//! Grammar, over the tokens that remain once comments and whitespace are
//! dropped (every operator binds the same and associates to the left):
//!
//! ```text
//! block_items := (";" | statement)* ["ret" expr [";"]]
//! statement   := "let" ["mut"] name "=" expr | name "=" expr | if | "while" expr block
//!              | block | expr
//! if          := "if" expr block ["else" (if | block)]
//! block       := "{" block_items "}"
//! expr        := primary (operator primary)* [operator, at the end of input]
//! primary     := literal | name "(" [expr ("," expr)* [","]] ")" | name | "(" expr ")"
//!              | operator primary
//! ```
//!
//! `ret` gives the value of the enclosing block and must end it. Before any
//! of this, parentheses, braces and brackets must balance.
use vstd::prelude::*;
use crate::ast::{exprs_view, Block, BlockModel, ExprModel, Expression, Statement, StmtModel};
use crate::cursor::TokenIter;
use crate::keyword::Keyword;
use crate::operator::Operator;
use crate::token::{tokens_view, Identifier, Token, TokenModel};
use crate::tokenizer::Tokenizer;

verus! {

/// What the parser was looking for when it met another token.
#[derive(Debug, Clone, Copy, PartialEq, Eq, Structural)]
pub enum Expected {
    /// A name
    Identifier,
    /// `=`
    Assign,
    /// `{`
    OpenBrace,
    /// `)`
    CloseParen,
    /// The end of the block, after `ret`
    EndOfBlock,
}

/// Why a token sequence is not a program.
#[derive(Debug, Clone, PartialEq)]
pub enum ParseError {
    /// An operator with no operand on either side
    EmptyExpression,
    /// A token that cannot be an operand, where one was expected
    InvalidOperand(Token),
    /// Parentheses, braces or brackets that do not balance
    UnbalancedDelimiter,
    /// The input ended inside a construct
    UnexpectedEndOfInput,
    /// Another token than the one the grammar asks for
    UnexpectedToken {
        /// What was expected
        expected: Expected,
        /// What was found
        found: Token,
    },
}

/// The model of a [ParseError].
pub enum ParseErrorModel {
    EmptyExpression,
    InvalidOperand(TokenModel),
    UnbalancedDelimiter,
    UnexpectedEndOfInput,
    UnexpectedToken(Expected, TokenModel),
}

impl View for ParseError {
    type V = ParseErrorModel;

    open spec fn view(&self) -> ParseErrorModel {
        match self {
            ParseError::EmptyExpression => ParseErrorModel::EmptyExpression,
            ParseError::InvalidOperand(t) => ParseErrorModel::InvalidOperand(t@),
            ParseError::UnbalancedDelimiter => ParseErrorModel::UnbalancedDelimiter,
            ParseError::UnexpectedEndOfInput => ParseErrorModel::UnexpectedEndOfInput,
            ParseError::UnexpectedToken { expected, found } => ParseErrorModel::UnexpectedToken(
                *expected,
                found@,
            ),
        }
    }
}

/// An error of the grammar; delimiters are checked before the grammar runs.
pub enum SyntaxError {
    EmptyExpression,
    InvalidOperand(TokenModel),
    UnexpectedEndOfInput,
    UnexpectedToken(Expected, TokenModel),
}

/// The parse error that a grammar error is reported as.
pub open spec fn lift(e: SyntaxError) -> ParseErrorModel {
    match e {
        SyntaxError::EmptyExpression => ParseErrorModel::EmptyExpression,
        SyntaxError::InvalidOperand(t) => ParseErrorModel::InvalidOperand(t),
        SyntaxError::UnexpectedEndOfInput => ParseErrorModel::UnexpectedEndOfInput,
        SyntaxError::UnexpectedToken(x, t) => ParseErrorModel::UnexpectedToken(x, t),
    }
}

/// A kind of delimiter.
#[derive(Debug, Clone, Copy, PartialEq, Eq, Structural)]
pub enum Delim {
    /// `(` and `)`
    Paren,
    /// `{` and `}`
    Brace,
    /// `[` and `]`
    Bracket,
}

/// The delimiters still open after one more token, or `None` once a closer failed to match.
pub open spec fn stack_step(st: Option<Seq<Delim>>, t: TokenModel) -> Option<Seq<Delim>> {
    match st {
        None => None,
        Some(s) => match t {
            TokenModel::LParen => Some(s.push(Delim::Paren)),
            TokenModel::LBrace => Some(s.push(Delim::Brace)),
            TokenModel::LBracket => Some(s.push(Delim::Bracket)),
            TokenModel::RParen => close(s, Delim::Paren),
            TokenModel::RBrace => close(s, Delim::Brace),
            TokenModel::RBracket => close(s, Delim::Bracket),
            _ => Some(s),
        },
    }
}

/// Closes the innermost open delimiter if it is `d`; `None` otherwise.
pub open spec fn close(s: Seq<Delim>, d: Delim) -> Option<Seq<Delim>> {
    if s.len() > 0 && s.last() == d {
        Some(s.drop_last())
    } else {
        None
    }
}

/// The delimiters open after `ts`, starting from `st`.
pub open spec fn stack_after(st: Option<Seq<Delim>>, ts: Seq<TokenModel>) -> Option<Seq<Delim>>
    decreases ts.len(),
{
    if ts.len() == 0 {
        st
    } else {
        stack_step(stack_after(st, ts.drop_last()), ts.last())
    }
}

/// Every opener has a matching closer after it, in order, and every closer an opener.
pub open spec fn balanced(ts: Seq<TokenModel>) -> bool {
    stack_after(Some(Seq::empty()), ts) == Some(Seq::<Delim>::empty())
}

/// `)`, `}` or `]`.
pub open spec fn is_closer(t: TokenModel) -> bool {
    t is RParen || t is RBrace || t is RBracket
}

/// A position moved forward, but not past the end.
pub open spec fn clamp(ts: Seq<TokenModel>, p: int) -> int {
    if p > ts.len() {
        ts.len() as int
    } else {
        p
    }
}

/// A block with no statements and no value.
pub open spec fn empty_block() -> BlockModel {
    BlockModel { statements: Seq::empty(), trailing_value: ExprModel::Unit }
}

// Each of the following returns the tree read from position `i` and, but for
// `block_items`, the number of tokens it took less one.

/// A literal, a name, a parenthesised expression, or an operator before a primary.
pub open spec fn primary(ts: Seq<TokenModel>, i: int) -> Result<(ExprModel, nat), SyntaxError>
    decreases ts.len() - i, 0nat,
{
    if i < 0 || i >= ts.len() {
        Err(SyntaxError::UnexpectedEndOfInput)
    } else {
        match ts[i] {
            TokenModel::Literal(l) => Ok((ExprModel::Literal(l), 0)),
            TokenModel::Identifier(n) => if i + 1 < ts.len() && ts[i + 1] is LParen {
                match call_args(ts, i + 2) {
                    Err(e) => Err(e),
                    Ok((args, m)) => Ok((ExprModel::Call { callee: n, arguments: args }, m + 2)),
                }
            } else {
                Ok((ExprModel::Reference(n), 0))
            },
            TokenModel::LParen => match expr(ts, i + 1) {
                Err(e) => Err(e),
                Ok((e, n)) => {
                    let j = i + n + 2;
                    if j >= ts.len() {
                        Err(SyntaxError::UnexpectedEndOfInput)
                    } else if ts[j] is RParen {
                        Ok((e, n + 2))
                    } else {
                        Err(SyntaxError::UnexpectedToken(Expected::CloseParen, ts[j]))
                    }
                },
            },
            TokenModel::Op(o) => if i + 1 >= ts.len() {
                Err(SyntaxError::EmptyExpression)
            } else {
                match primary(ts, i + 1) {
                    Err(e) => Err(e),
                    Ok((e, n)) => Ok((ExprModel::UnaryOp { operator: o, operand: Box::new(e) }, n + 1)),
                }
            },
            t => Err(SyntaxError::InvalidOperand(t)),
        }
    }
}

/// The arguments of a call, after its `(`, up to and with its `)`.
pub open spec fn call_args(ts: Seq<TokenModel>, i: int) -> Result<(Seq<ExprModel>, nat), SyntaxError>
    decreases ts.len() - i, 2nat,
{
    if i < 0 || i >= ts.len() {
        Err(SyntaxError::UnexpectedEndOfInput)
    } else if ts[i] is RParen {
        Ok((Seq::empty(), 0))
    } else {
        match expr(ts, i) {
            Err(e) => Err(e),
            Ok((e, n)) => {
                let j = i + n + 1;
                if j >= ts.len() {
                    Err(SyntaxError::UnexpectedEndOfInput)
                } else if ts[j] is RParen {
                    Ok((seq![e], n + 1))
                } else if ts[j] is Comma {
                    match call_args(ts, j + 1) {
                        Err(e) => Err(e),
                        Ok((rest, m)) => Ok((seq![e] + rest, n + m + 2)),
                    }
                } else {
                    Err(SyntaxError::UnexpectedToken(Expected::CloseParen, ts[j]))
                }
            },
        }
    }
}

/// A primary followed by the operators and operands that continue it.
pub open spec fn expr(ts: Seq<TokenModel>, i: int) -> Result<(ExprModel, nat), SyntaxError>
    decreases ts.len() - i, 1nat,
{
    if i < 0 || i >= ts.len() {
        Err(SyntaxError::UnexpectedEndOfInput)
    } else {
        match primary(ts, i) {
            Err(e) => Err(e),
            Ok((left, n)) => match expr_rest(ts, left, clamp(ts, i + n + 1)) {
                Err(e) => Err(e),
                Ok((e, m)) => Ok((e, n + m)),
            },
        }
    }
}

/// Continues the expression `left` from position `j`; the count is of all tokens taken.
pub open spec fn expr_rest(ts: Seq<TokenModel>, left: ExprModel, j: int) -> Result<
    (ExprModel, nat),
    SyntaxError,
>
    decreases ts.len() - j, 2nat,
{
    if 0 <= j < ts.len() && ts[j] is Op {
        let o = ts[j]->Op_0;
        if j + 1 >= ts.len() {
            Ok((ExprModel::UnaryOp { operator: o, operand: Box::new(left) }, 1))
        } else {
            match primary(ts, j + 1) {
                Err(e) => Err(e),
                Ok((right, n)) => {
                    let e = ExprModel::BinaryOp {
                        operator: o,
                        left: Box::new(left),
                        right: Box::new(right),
                    };
                    match expr_rest(ts, e, clamp(ts, j + n + 2)) {
                        Err(e) => Err(e),
                        Ok((e, m)) => Ok((e, n + 2 + m)),
                    }
                },
            }
        }
    } else {
        Ok((left, 0))
    }
}

/// `{`, the statements of a block, `}`.
pub open spec fn block(ts: Seq<TokenModel>, i: int) -> Result<(BlockModel, nat), SyntaxError>
    decreases ts.len() - i, 1nat,
{
    if i < 0 || i >= ts.len() {
        Err(SyntaxError::UnexpectedEndOfInput)
    } else if !(ts[i] is LBrace) {
        Err(SyntaxError::UnexpectedToken(Expected::OpenBrace, ts[i]))
    } else {
        match block_items(ts, i + 1, true) {
            Err(e) => Err(e),
            Ok((b, n)) => {
                let j = i + 1 + n;
                if j >= ts.len() {
                    Err(SyntaxError::UnexpectedEndOfInput)
                } else {
                    Ok((b, n + 1))
                }
            },
        }
    }
}

/// `if`, its condition and block, and an optional `else` with a block or another `if`.
pub open spec fn if_statement(ts: Seq<TokenModel>, i: int) -> Result<(StmtModel, nat), SyntaxError>
    decreases ts.len() - i, 2nat,
{
    if i < 0 || i >= ts.len() {
        Err(SyntaxError::UnexpectedEndOfInput)
    } else {
        match expr(ts, i + 1) {
            Err(e) => Err(e),
            Ok((c, n)) => {
                let j = clamp(ts, i + n + 2);
                match block(ts, j) {
                    Err(e) => Err(e),
                    Ok((tb, m)) => {
                        let k = clamp(ts, j + m + 1);
                        if k < ts.len() && ts[k] == TokenModel::Keyword(Keyword::Else) {
                            if k + 1 < ts.len() && ts[k + 1] == TokenModel::Keyword(Keyword::If) {
                                match if_statement(ts, k + 1) {
                                    Err(e) => Err(e),
                                    Ok((s, q)) => Ok((
                                        StmtModel::If {
                                            condition: c,
                                            then_block: tb,
                                            else_block: Some(
                                                BlockModel {
                                                    statements: seq![s],
                                                    trailing_value: ExprModel::Unit,
                                                },
                                            ),
                                        },
                                        (k + 1 - i + q) as nat,
                                    )),
                                }
                            } else {
                                match block(ts, k + 1) {
                                    Err(e) => Err(e),
                                    Ok((eb, q)) => Ok((
                                        StmtModel::If {
                                            condition: c,
                                            then_block: tb,
                                            else_block: Some(eb),
                                        },
                                        (k + 1 - i + q) as nat,
                                    )),
                                }
                            }
                        } else {
                            Ok((
                                StmtModel::If { condition: c, then_block: tb, else_block: None },
                                (k - i - 1) as nat,
                            ))
                        }
                    },
                }
            },
        }
    }
}

/// `let [mut] name = expr`, from the `let` at `i`.
pub open spec fn let_statement(ts: Seq<TokenModel>, i: int) -> Result<(StmtModel, nat), SyntaxError>
    decreases ts.len() - i, 2nat,
{
    let mutable = i + 1 < ts.len() && ts[i + 1] == TokenModel::Keyword(Keyword::Mut);
    let k = if mutable { i + 2 } else { i + 1 };
    if k >= ts.len() {
        Err(SyntaxError::UnexpectedEndOfInput)
    } else if !(ts[k] is Identifier) {
        Err(SyntaxError::UnexpectedToken(Expected::Identifier, ts[k]))
    } else if k + 1 >= ts.len() {
        Err(SyntaxError::UnexpectedEndOfInput)
    } else if ts[k + 1] != TokenModel::Op(Operator::Equal(false)) {
        Err(SyntaxError::UnexpectedToken(Expected::Assign, ts[k + 1]))
    } else {
        match expr(ts, k + 2) {
            Err(e) => Err(e),
            Ok((v, n)) => Ok((
                StmtModel::Binding { identifier: ts[k]->Identifier_0, value: v, mutable },
                (k + 2 - i + n) as nat,
            )),
        }
    }
}

/// `while expr block`, from the `while` at `i`.
pub open spec fn while_statement(ts: Seq<TokenModel>, i: int) -> Result<(StmtModel, nat), SyntaxError>
    decreases ts.len() - i, 2nat,
{
    if i < 0 || i >= ts.len() {
        Err(SyntaxError::UnexpectedEndOfInput)
    } else {
        match expr(ts, i + 1) {
            Err(e) => Err(e),
            Ok((c, n)) => match block(ts, clamp(ts, i + n + 2)) {
                Err(e) => Err(e),
                Ok((b, m)) => Ok((StmtModel::While { condition: c, body: b }, n + m + 2)),
            },
        }
    }
}

/// One statement.
pub open spec fn statement(ts: Seq<TokenModel>, i: int) -> Result<(StmtModel, nat), SyntaxError>
    decreases ts.len() - i, 3nat,
{
    if i < 0 || i >= ts.len() {
        Err(SyntaxError::UnexpectedEndOfInput)
    } else if ts[i] == TokenModel::Keyword(Keyword::Let) {
        let_statement(ts, i)
    } else if ts[i] is Identifier && i + 1 < ts.len() && ts[i + 1] == TokenModel::Op(
        Operator::Equal(false),
    ) {
        match expr(ts, i + 2) {
            Err(e) => Err(e),
            Ok((v, n)) => Ok((
                StmtModel::Reassignment { identifier: ts[i]->Identifier_0, value: v },
                n + 2,
            )),
        }
    } else if ts[i] == TokenModel::Keyword(Keyword::If) {
        if_statement(ts, i)
    } else if ts[i] == TokenModel::Keyword(Keyword::While) {
        while_statement(ts, i)
    } else if ts[i] is LBrace {
        match block(ts, i) {
            Err(e) => Err(e),
            Ok((b, n)) => Ok((StmtModel::NestedBlock(b), n)),
        }
    } else {
        match expr(ts, i) {
            Err(e) => Err(e),
            Ok((e, n)) => Ok((StmtModel::Expression(e), n)),
        }
    }
}

/// Whether position `j` ends the current block: the end of input at the top
/// level, a `}` inside braces.
pub open spec fn ends_block(ts: Seq<TokenModel>, j: int, nested: bool) -> bool {
    if nested {
        0 <= j < ts.len() && ts[j] is RBrace
    } else {
        j >= ts.len()
    }
}

/// The statements of a block, up to its `}` (`nested`) or the end of input;
/// the count is of all tokens taken.
pub open spec fn block_items(ts: Seq<TokenModel>, i: int, nested: bool) -> Result<
    (BlockModel, nat),
    SyntaxError,
>
    decreases ts.len() - i, 4nat,
{
    if i < 0 || i >= ts.len() {
        if nested {
            Err(SyntaxError::UnexpectedEndOfInput)
        } else {
            Ok((empty_block(), 0))
        }
    } else if ts[i] is RBrace {
        if nested {
            Ok((empty_block(), 0))
        } else {
            Err(SyntaxError::UnexpectedToken(Expected::EndOfBlock, ts[i]))
        }
    } else if ts[i] is SemiColon {
        match block_items(ts, i + 1, nested) {
            Err(e) => Err(e),
            Ok((b, n)) => Ok((b, n + 1)),
        }
    } else if ts[i] == TokenModel::Keyword(Keyword::Return) {
        match expr(ts, i + 1) {
            Err(e) => Err(e),
            Ok((v, n)) => {
                let j = i + n + 2;
                let j2 = if j < ts.len() && ts[j] is SemiColon { j + 1 } else { j };
                if ends_block(ts, j2, nested) {
                    Ok((BlockModel { statements: Seq::empty(), trailing_value: v }, (j2 - i) as nat))
                } else if j2 >= ts.len() {
                    Err(SyntaxError::UnexpectedEndOfInput)
                } else {
                    Err(SyntaxError::UnexpectedToken(Expected::EndOfBlock, ts[j2]))
                }
            },
        }
    } else {
        match statement(ts, i) {
            Err(e) => Err(e),
            Ok((s, n)) => match block_items(ts, clamp(ts, i + n + 1), nested) {
                Err(e) => Err(e),
                Ok((b, m)) => Ok((
                    BlockModel {
                        statements: seq![s] + b.statements,
                        trailing_value: b.trailing_value,
                    },
                    n + 1 + m,
                )),
            },
        }
    }
}

/// The program that a sequence of significant tokens stands for.
pub open spec fn parse_tokens(ts: Seq<TokenModel>) -> Result<BlockModel, ParseErrorModel> {
    if !balanced(ts) {
        Err(ParseErrorModel::UnbalancedDelimiter)
    } else {
        match block_items(ts, 0, false) {
            Ok((b, _)) => Ok(b),
            Err(e) => Err(lift(e)),
        }
    }
}


/// The tokens of a cursor, as models.
pub open spec fn model(ts: &TokenIter) -> Seq<TokenModel> {
    tokens_view(ts.items())
}

/// `r` is what the grammar gives from `i` (`spec`), for a construct of at least one token.
pub open spec fn expr_matches(
    spec: Result<(ExprModel, nat), SyntaxError>,
    r: Result<(Expression, usize), ParseError>,
    i: int,
    len: int,
) -> bool {
    match r {
        Ok((e, p)) => spec == Ok::<(ExprModel, nat), SyntaxError>((e@, (p - i - 1) as nat)) && i < p
            <= len,
        Err(err) => spec is Err && err@ == lift(spec->Err_0),
    }
}

/// `r` is what the grammar gives from `i` (`spec`), counting all tokens taken.
pub open spec fn rest_matches(
    spec: Result<(ExprModel, nat), SyntaxError>,
    r: Result<(Expression, usize), ParseError>,
    i: int,
    len: int,
) -> bool {
    match r {
        Ok((e, p)) => spec == Ok::<(ExprModel, nat), SyntaxError>((e@, (p - i) as nat)) && i <= p
            <= len,
        Err(err) => spec is Err && err@ == lift(spec->Err_0),
    }
}

/// `r` is what the grammar gives from `i` (`spec`), for a statement.
pub open spec fn stmt_matches(
    spec: Result<(StmtModel, nat), SyntaxError>,
    r: Result<(Statement, usize), ParseError>,
    i: int,
    len: int,
) -> bool {
    match r {
        Ok((s, p)) => spec == Ok::<(StmtModel, nat), SyntaxError>((s@, (p - i - 1) as nat)) && i < p
            <= len,
        Err(err) => spec is Err && err@ == lift(spec->Err_0),
    }
}

/// `r` is what the grammar gives from `i` (`spec`), for a braced block.
pub open spec fn block_matches(
    spec: Result<(BlockModel, nat), SyntaxError>,
    r: Result<(Block, usize), ParseError>,
    i: int,
    len: int,
) -> bool {
    match r {
        Ok((b, p)) => spec == Ok::<(BlockModel, nat), SyntaxError>((b@, (p - i - 1) as nat)) && i < p
            <= len,
        Err(err) => spec is Err && err@ == lift(spec->Err_0),
    }
}

/// `r` is what the grammar gives from `i` (`spec`), for the statements of a block.
pub open spec fn items_matches(
    spec: Result<(BlockModel, nat), SyntaxError>,
    r: Result<(Block, usize), ParseError>,
    i: int,
    len: int,
) -> bool {
    match r {
        Ok((b, p)) => spec == Ok::<(BlockModel, nat), SyntaxError>((b@, (p - i) as nat)) && i <= p
            <= len,
        Err(err) => spec is Err && err@ == lift(spec->Err_0),
    }
}

fn is_plain_assign(t: &Token) -> (r: bool)
    ensures
        r == (t@ == TokenModel::Op(Operator::Equal(false))),
{
    match t {
        Token::Op(Operator::Equal(false)) => true,
        _ => false,
    }
}

fn is_keyword(t: &Token, k: Keyword) -> (r: bool)
    ensures
        r == (t@ == TokenModel::Keyword(k)),
{
    match t {
        Token::Keyword(x) => *x == k,
        _ => false,
    }
}

fn parse_primary(ts: &TokenIter, i: usize) -> (r: Result<(Expression, usize), ParseError>)
    ensures
        expr_matches(primary(model(ts), i as int), r, i as int, model(ts).len() as int),
    decreases model(ts).len() - i, 0nat,
{
    let n = ts.len();
    if i >= n {
        return Err(ParseError::UnexpectedEndOfInput);
    }
    let t = ts.at(i);
    match t {
        Token::Literal(l) => Ok((Expression::Literal(l.duplicate()), i + 1)),
        Token::Identifier(id) => {
            if i + 1 < n && matches!(ts.at(i + 1), Token::LParen) {
                match parse_call_args(ts, i + 2) {
                    Err(e) => Err(e),
                    Ok((arguments, p)) => {
                        let ghost av = exprs_view(arguments@);
                        let e = Expression::Call { callee: Identifier::new(id.name.clone()), arguments };
                        assert(e@->Call_arguments =~= av);
                        assert(e@ == ExprModel::Call { callee: id.name@, arguments: av });
                        Ok((e, p))
                    },
                }
            } else {
                Ok((Expression::Reference(Identifier::new(id.name.clone())), i + 1))
            }
        },
        Token::LParen => match parse_expr(ts, i + 1) {
            Err(e) => Err(e),
            Ok((e, j)) => {
                if j >= n {
                    Err(ParseError::UnexpectedEndOfInput)
                } else if matches!(ts.at(j), Token::RParen) {
                    Ok((e, j + 1))
                } else {
                    Err(ParseError::UnexpectedToken { expected: Expected::CloseParen, found: ts.at(j).duplicate() })
                }
            },
        },
        Token::Op(o) => {
            if i + 1 >= n {
                Err(ParseError::EmptyExpression)
            } else {
                match parse_primary(ts, i + 1) {
                    Err(e) => Err(e),
                    Ok((e, j)) => Ok((Expression::UnaryOp { operator: *o, operand: Box::new(e) }, j)),
                }
            }
        },
        _ => Err(ParseError::InvalidOperand(t.duplicate())),
    }
}

fn parse_call_args(ts: &TokenIter, i: usize) -> (r: Result<(Vec<Expression>, usize), ParseError>)
    ensures
        match r {
            Ok((v, p)) => call_args(model(ts), i as int) == Ok::<(Seq<ExprModel>, nat), SyntaxError>(
                (exprs_view(v@), (p - i - 1) as nat),
            ) && i < p <= model(ts).len(),
            Err(err) => call_args(model(ts), i as int) is Err && err@ == lift(
                call_args(model(ts), i as int)->Err_0,
            ),
        },
    decreases model(ts).len() - i, 2nat,
{
    let n = ts.len();
    if i >= n {
        return Err(ParseError::UnexpectedEndOfInput);
    }
    if matches!(ts.at(i), Token::RParen) {
        let v: Vec<Expression> = Vec::new();
        assert(exprs_view(v@) =~= Seq::<ExprModel>::empty());
        return Ok((v, i + 1));
    }
    let (e, j) = match parse_expr(ts, i) {
        Err(e) => return Err(e),
        Ok(x) => x,
    };
    if j >= n {
        return Err(ParseError::UnexpectedEndOfInput);
    }
    let ghost ev = e@;
    if matches!(ts.at(j), Token::RParen) {
        let mut v: Vec<Expression> = Vec::new();
        v.push(e);
        assert(exprs_view(v@) =~= seq![ev]);
        return Ok((v, j + 1));
    }
    if matches!(ts.at(j), Token::Comma) {
        return match parse_call_args(ts, j + 1) {
            Err(err) => Err(err),
            Ok((rest, p)) => {
                let ghost rv = exprs_view(rest@);
                let mut v = rest;
                v.insert(0, e);
                assert(exprs_view(v@) =~= seq![ev] + rv);
                Ok((v, p))
            },
        };
    }
    Err(ParseError::UnexpectedToken { expected: Expected::CloseParen, found: ts.at(j).duplicate() })
}

fn parse_expr(ts: &TokenIter, i: usize) -> (r: Result<(Expression, usize), ParseError>)
    ensures
        expr_matches(expr(model(ts), i as int), r, i as int, model(ts).len() as int),
    decreases model(ts).len() - i, 1nat,
{
    if i >= ts.len() {
        return Err(ParseError::UnexpectedEndOfInput);
    }
    match parse_primary(ts, i) {
        Err(e) => Err(e),
        Ok((left, p)) => {
            let ghost lv = left@;
            let r = parse_expr_rest(ts, left, p);
            assert(clamp(model(ts), p as int) == p);
            r
        },
    }
}

fn parse_expr_rest(ts: &TokenIter, left: Expression, j: usize) -> (r: Result<(Expression, usize), ParseError>)
    requires
        j <= model(ts).len(),
    ensures
        rest_matches(expr_rest(model(ts), left@, j as int), r, j as int, model(ts).len() as int),
    decreases model(ts).len() - j, 2nat,
{
    let n = ts.len();
    if j < n {
        if let Token::Op(o) = ts.at(j) {
            let o = *o;
            if j + 1 >= n {
                return Ok((Expression::UnaryOp { operator: o, operand: Box::new(left) }, j + 1));
            }
            return match parse_primary(ts, j + 1) {
                Err(e) => Err(e),
                Ok((right, p)) => {
                    let e = Expression::BinaryOp { operator: o, left: Box::new(left), right: Box::new(right) };
                    assert(clamp(model(ts), p as int) == p);
                    parse_expr_rest(ts, e, p)
                },
            };
        }
    }
    Ok((left, j))
}

fn parse_block(ts: &TokenIter, i: usize) -> (r: Result<(Block, usize), ParseError>)
    ensures
        block_matches(block(model(ts), i as int), r, i as int, model(ts).len() as int),
    decreases model(ts).len() - i, 1nat,
{
    let n = ts.len();
    if i >= n {
        return Err(ParseError::UnexpectedEndOfInput);
    }
    if !matches!(ts.at(i), Token::LBrace) {
        return Err(ParseError::UnexpectedToken { expected: Expected::OpenBrace, found: ts.at(i).duplicate() });
    }
    match parse_block_items(ts, i + 1, true) {
        Err(e) => Err(e),
        Ok((b, j)) => {
            if j >= n {
                Err(ParseError::UnexpectedEndOfInput)
            } else {
                Ok((b, j + 1))
            }
        },
    }
}

#[verifier::rlimit(60)]
#[verifier::spinoff_prover]
fn parse_if(ts: &TokenIter, i: usize) -> (r: Result<(Statement, usize), ParseError>)
    ensures
        stmt_matches(if_statement(model(ts), i as int), r, i as int, model(ts).len() as int),
    decreases model(ts).len() - i, 2nat,
{
    let n = ts.len();
    if i >= n {
        return Err(ParseError::UnexpectedEndOfInput);
    }
    let (c, j) = match parse_expr(ts, i + 1) {
        Err(e) => return Err(e),
        Ok(x) => x,
    };
    assert(clamp(model(ts), j as int) == j);
    let (tb, k) = match parse_block(ts, j) {
        Err(e) => return Err(e),
        Ok(x) => x,
    };
    assert(clamp(model(ts), k as int) == k);
    if k < n && is_keyword(ts.at(k), Keyword::Else) {
        if k + 1 < n && is_keyword(ts.at(k + 1), Keyword::If) {
            match parse_if(ts, k + 1) {
                Err(e) => Err(e),
                Ok((s, q)) => {
                    let ghost sv = s@;
                    let mut stmts: Vec<Statement> = Vec::new();
                    stmts.push(s);
                    let eb = Block { statements: stmts, trailing_value: Expression::Unit };
                    assert(eb@.statements =~= seq![sv]);
                    Ok((Statement::If { condition: c, then_block: tb, else_block: Some(eb) }, q))
                },
            }
        } else {
            match parse_block(ts, k + 1) {
                Err(e) => Err(e),
                Ok((eb, q)) => Ok((Statement::If { condition: c, then_block: tb, else_block: Some(eb) }, q)),
            }
        }
    } else {
        Ok((Statement::If { condition: c, then_block: tb, else_block: None }, k))
    }
}

/// `let [mut] name = expr`.
#[verifier::rlimit(30)]
fn parse_let(ts: &TokenIter, i: usize) -> (r: Result<(Statement, usize), ParseError>)
    requires
        i < model(ts).len(),
        model(ts)[i as int] == TokenModel::Keyword(Keyword::Let),
    ensures
        stmt_matches(let_statement(model(ts), i as int), r, i as int, model(ts).len() as int),
    decreases model(ts).len() - i, 2nat,
{
    let n = ts.len();
    let mutable = i + 1 < n && is_keyword(ts.at(i + 1), Keyword::Mut);
    let k = if mutable { i + 2 } else { i + 1 };
    if k >= n {
        return Err(ParseError::UnexpectedEndOfInput);
    }
    let name = match ts.at(k) {
        Token::Identifier(id) => id.name.clone(),
        other => {
            return Err(ParseError::UnexpectedToken { expected: Expected::Identifier, found: other.duplicate() });
        },
    };
    if k + 1 >= n {
        return Err(ParseError::UnexpectedEndOfInput);
    }
    if !is_plain_assign(ts.at(k + 1)) {
        return Err(ParseError::UnexpectedToken { expected: Expected::Assign, found: ts.at(k + 1).duplicate() });
    }
    match parse_expr(ts, k + 2) {
        Err(e) => Err(e),
        Ok((v, p)) => Ok((Statement::Binding { identifier: Identifier::new(name), value: v, mutable }, p)),
    }
}

/// `while expr block`.
#[verifier::rlimit(80)]
#[verifier::spinoff_prover]
fn parse_while(ts: &TokenIter, i: usize) -> (r: Result<(Statement, usize), ParseError>)
    requires
        i < model(ts).len(),
        model(ts)[i as int] == TokenModel::Keyword(Keyword::While),
    ensures
        stmt_matches(while_statement(model(ts), i as int), r, i as int, model(ts).len() as int),
    decreases model(ts).len() - i, 2nat,
{
    if i >= ts.len() {
        return Err(ParseError::UnexpectedEndOfInput);
    }
    let (c, j) = match parse_expr(ts, i + 1) {
        Err(e) => return Err(e),
        Ok(x) => x,
    };
    assert(clamp(model(ts), j as int) == j);
    match parse_block(ts, j) {
        Err(e) => Err(e),
        Ok((b, p)) => Ok((Statement::While { condition: c, body: b }, p)),
    }
}

#[verifier::rlimit(60)]
#[verifier::spinoff_prover]
fn parse_statement(ts: &TokenIter, i: usize) -> (r: Result<(Statement, usize), ParseError>)
    ensures
        stmt_matches(statement(model(ts), i as int), r, i as int, model(ts).len() as int),
    decreases model(ts).len() - i, 3nat,
{
    let n = ts.len();
    if i >= n {
        return Err(ParseError::UnexpectedEndOfInput);
    }
    let t = ts.at(i);
    if is_keyword(t, Keyword::Let) {
        return parse_let(ts, i);
    }
    if let Token::Identifier(id) = t {
        if i + 1 < n && is_plain_assign(ts.at(i + 1)) {
            return match parse_expr(ts, i + 2) {
                Err(e) => Err(e),
                Ok((v, p)) => Ok((Statement::Reassignment { identifier: Identifier::new(id.name.clone()), value: v }, p)),
            };
        }
    }
    if is_keyword(t, Keyword::If) {
        return parse_if(ts, i);
    }
    if is_keyword(t, Keyword::While) {
        return parse_while(ts, i);
    }
    if matches!(t, Token::LBrace) {
        return match parse_block(ts, i) {
            Err(e) => Err(e),
            Ok((b, p)) => Ok((Statement::NestedBlock(b), p)),
        };
    }
    match parse_expr(ts, i) {
        Err(e) => Err(e),
        Ok((e, p)) => Ok((Statement::Expression(e), p)),
    }
}

#[verifier::rlimit(60)]
#[verifier::spinoff_prover]
fn parse_block_items(ts: &TokenIter, i: usize, nested: bool) -> (r: Result<(Block, usize), ParseError>)
    requires
        i <= model(ts).len(),
    ensures
        items_matches(block_items(model(ts), i as int, nested), r, i as int, model(ts).len() as int),
    decreases model(ts).len() - i, 4nat,
{
    let n = ts.len();
    if i >= n {
        if nested {
            return Err(ParseError::UnexpectedEndOfInput);
        }
        let b = Block { statements: Vec::new(), trailing_value: Expression::Unit };
        assert(b@.statements =~= Seq::<StmtModel>::empty());
        return Ok((b, i));
    }
    let t = ts.at(i);
    if matches!(t, Token::RBrace) {
        if nested {
            let b = Block { statements: Vec::new(), trailing_value: Expression::Unit };
            assert(b@.statements =~= Seq::<StmtModel>::empty());
            return Ok((b, i));
        }
        return Err(ParseError::UnexpectedToken { expected: Expected::EndOfBlock, found: t.duplicate() });
    }
    if matches!(t, Token::SemiColon) {
        return parse_block_items(ts, i + 1, nested);
    }
    if is_keyword(t, Keyword::Return) {
        let (v, j) = match parse_expr(ts, i + 1) {
            Err(e) => return Err(e),
            Ok(x) => x,
        };
        let j2 = if j < n && matches!(ts.at(j), Token::SemiColon) { j + 1 } else { j };
        let ends = if nested { j2 < n && matches!(ts.at(j2), Token::RBrace) } else { j2 >= n };
        if ends {
            let b = Block { statements: Vec::new(), trailing_value: v };
            assert(b@.statements =~= Seq::<StmtModel>::empty());
            return Ok((b, j2));
        }
        if j2 >= n {
            return Err(ParseError::UnexpectedEndOfInput);
        }
        return Err(ParseError::UnexpectedToken { expected: Expected::EndOfBlock, found: ts.at(j2).duplicate() });
    }
    match parse_statement(ts, i) {
        Err(e) => Err(e),
        Ok((s, p)) => {
            assert(clamp(model(ts), p as int) == p);
            match parse_block_items(ts, p, nested) {
                Err(e) => Err(e),
                Ok((b, q)) => {
                    let ghost sv = s@;
                    let ghost bv = b@;
                    let mut b = b;
                    b.statements.insert(0, s);
                    assert(b@.statements =~= seq![sv] + bv.statements);
                    Ok((b, q))
                },
            }
        },
    }
}

/// Whether the delimiters of the tokens balance.
fn delimiters_balance(ts: &TokenIter) -> (r: bool)
    ensures
        r == balanced(model(ts)),
{
    let ghost m = model(ts);
    let n = ts.len();
    let mut stack: Vec<Delim> = Vec::new();
    let mut ok = true;
    let mut i: usize = 0;
    assert(m.take(0) =~= Seq::<TokenModel>::empty());
    while i < n
        invariant
            m == model(ts),
            n == m.len(),
            0 <= i <= n,
            ok ==> stack_after(Some(Seq::empty()), m.take(i as int)) == Some(stack@),
            !ok ==> stack_after(Some(Seq::empty()), m.take(i as int)) is None,
        decreases n - i,
    {
        assert(m.take(i + 1).drop_last() =~= m.take(i as int));
        let t = ts.at(i);
        if ok {
            match t {
                Token::LParen => stack.push(Delim::Paren),
                Token::LBrace => stack.push(Delim::Brace),
                Token::LBracket => stack.push(Delim::Bracket),
                Token::RParen | Token::RBrace | Token::RBracket => {
                    let d = match t {
                        Token::RParen => Delim::Paren,
                        Token::RBrace => Delim::Brace,
                        _ => Delim::Bracket,
                    };
                    let len = stack.len();
                    if len > 0 && stack[len - 1] == d {
                        stack.pop();
                    } else {
                        ok = false;
                    }
                },
                _ => {},
            }
        }
        i = i + 1;
    }
    assert(m.take(n as int) =~= m);
    if ok && stack.len() == 0 {
        assert(stack@ =~= Seq::<Delim>::empty());
    }
    ok && stack.len() == 0
}

/// Whether a token is a comment or whitespace, which the parser never sees.
pub open spec fn is_trivia(t: TokenModel) -> bool {
    t is Comment || t is Whitespace
}

/// The tokens that the parser sees: all but comments and whitespace, in order.
pub open spec fn significant_tokens(ts: Seq<TokenModel>) -> Seq<TokenModel> {
    ts.filter(|t: TokenModel| !is_trivia(t))
}

/// Builds the syntax tree of a program.
#[derive(Debug)]
pub struct Wayfarer {
    tokens: TokenIter,
}

impl Wayfarer {
    /// The tokens that the parser reads.
    pub closed spec fn significant(&self) -> Seq<TokenModel> {
        model(&self.tokens)
    }

    /// A parser over the tokens of `tokenizer`, without comments and whitespace.
    pub fn new(tokenizer: Tokenizer) -> (r: Wayfarer)
        ensures
            r.significant() == significant_tokens(tokenizer.token_models()),
    {
        Wayfarer::from_cursor(TokenIter::from_tokenizer(tokenizer))
    }

    /// A parser over the tokens of `cursor`, without comments and whitespace.
    pub fn from_cursor(cursor: TokenIter) -> (r: Wayfarer)
        ensures
            r.significant() == significant_tokens(tokens_view(cursor.items())),
    {
        let ghost all = cursor.items();
        let keep = |t: &Token| -> (b: bool)
            ensures
                b == !is_trivia(t@),
            { !matches!(t, Token::Comment(_) | Token::Whitespace { .. }) };
        let tokens = cursor.filter(keep);
        proof {
            lemma_view_of_filter(
                all,
                |t: Token| keep.ensures((&t,), true),
                |t: TokenModel| !is_trivia(t),
            );
        }
        Wayfarer { tokens }
    }

    /// Parses the tokens into the root block of the program.
    pub fn generate(&self) -> (r: Result<Block, ParseError>)
        ensures
            match r {
                Ok(b) => parse_tokens(self.significant()) == Ok::<BlockModel, ParseErrorModel>(b@),
                Err(e) => parse_tokens(self.significant()) == Err::<BlockModel, ParseErrorModel>(e@),
            },
    {
        if !delimiters_balance(&self.tokens) {
            return Err(ParseError::UnbalancedDelimiter);
        }
        match parse_block_items(&self.tokens, 0, false) {
            Ok((b, _)) => Ok(b),
            Err(e) => Err(e),
        }
    }
}

/// Filtering tokens by a test that depends on their models alone commutes with taking models.
proof fn lemma_view_of_filter(
    s: Seq<Token>,
    keep: spec_fn(Token) -> bool,
    keep_model: spec_fn(TokenModel) -> bool,
)
    requires
        forall|i: int| 0 <= i < s.len() ==> keep(s[i]) == keep_model(#[trigger] s[i]@),
    ensures
        tokens_view(s.filter(keep)) == tokens_view(s).filter(keep_model),
    decreases s.len(),
{
    reveal(Seq::filter);
    if s.len() == 0 {
        assert(tokens_view(s.filter(keep)) =~= tokens_view(s).filter(keep_model));
    } else {
        let d = s.drop_last();
        assert forall|i: int| 0 <= i < d.len() implies keep(d[i]) == keep_model(#[trigger] d[i]@) by {
            assert(d[i] == s[i]);
        }
        lemma_view_of_filter(d, keep, keep_model);
        assert(tokens_view(s).drop_last() =~= tokens_view(d));
        assert(keep(s.last()) == keep_model(s.last()@));
        if keep(s.last()) {
            assert(tokens_view(d.filter(keep).push(s.last())) =~= tokens_view(d.filter(keep)).push(s.last()@));
        }
    }
}

/// Whether a parse result is the unbalanced-delimiter error.
pub open spec fn is_unbalanced(r: Result<BlockModel, ParseErrorModel>) -> bool {
    r is Err && r->Err_0 is UnbalancedDelimiter
}

proof fn lemma_stack_after_none(ts: Seq<TokenModel>)
    ensures
        stack_after(None, ts) is None,
    decreases ts.len(),
{
    if ts.len() > 0 {
        lemma_stack_after_none(ts.drop_last());
    }
}

proof fn lemma_stack_after_concat(st: Option<Seq<Delim>>, a: Seq<TokenModel>, b: Seq<TokenModel>)
    ensures
        stack_after(st, a + b) == stack_after(stack_after(st, a), b),
    decreases b.len(),
{
    if b.len() == 0 {
        assert(a + b =~= a);
    } else {
        assert((a + b).drop_last() =~= a + b.drop_last());
        lemma_stack_after_concat(st, a, b.drop_last());
    }
}

/// The parser reports unbalanced delimiters exactly when they do not balance:
/// never for balanced tokens, always otherwise.
pub proof fn lemma_unbalanced_iff(ts: Seq<TokenModel>)
    ensures
        balanced(ts) ==> !is_unbalanced(parse_tokens(ts)),
        !balanced(ts) ==> is_unbalanced(parse_tokens(ts)),
{
}

/// A closer with no open delimiter before it, after tokens that balance, makes
/// the parser report unbalanced delimiters, whatever follows.
pub proof fn lemma_unmatched_closer(a: Seq<TokenModel>, c: TokenModel, b: Seq<TokenModel>)
    requires
        balanced(a),
        is_closer(c),
    ensures
        is_unbalanced(parse_tokens(a + seq![c] + b)),
{
    let e = Some(Seq::<Delim>::empty());
    lemma_stack_after_concat(e, a, seq![c]);
    assert(seq![c].drop_last() =~= Seq::<TokenModel>::empty());
    assert(seq![c].last() == c);
    assert(stack_after(e, Seq::<TokenModel>::empty()) == e);
    assert(stack_after(e, seq![c]) == stack_step(e, c));
    assert(stack_after(e, a + seq![c]) is None);
    lemma_stack_after_concat(e, a + seq![c], b);
    lemma_stack_after_none(b);
}

} // verus!
