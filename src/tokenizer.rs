//! The lexer: turns source text into an ordered sequence of tokens.
//!
//! A `-` is always an operator (`Sub`, or `Arrow` before `>`): a number never
//! carries a sign, and a negative value is written as a `Sub` followed by the
//! number. A run of letters, digits, `_` and `.` is classified as a whole.
use vstd::prelude::*;
use crate::keyword::{keyword_of, lookup_keyword, Keyword};
use crate::operator::Operator;
use crate::token::{chars_of, string_of, tokens_view, Identifier, Literal, LiteralModel, Token, TokenModel};

verus! {

/// Why a source text could not be split into tokens.
#[derive(Debug, Clone, PartialEq)]
pub enum LexError {
    /// A run or a character that starts no token
    InvalidToken(String),
    /// A string literal without its closing quote
    UnterminatedLiteral,
    /// An integer outside the range of `i32`
    NumberOutOfRange,
    /// A number with more than one `.`
    MalformedNumber,
}

/// The mathematical model of a [LexError].
pub enum LexErrorModel {
    InvalidToken(Seq<char>),
    UnterminatedLiteral,
    NumberOutOfRange,
    MalformedNumber,
}

impl View for LexError {
    type V = LexErrorModel;

    open spec fn view(&self) -> LexErrorModel {
        match self {
            LexError::InvalidToken(s) => LexErrorModel::InvalidToken(s@),
            LexError::UnterminatedLiteral => LexErrorModel::UnterminatedLiteral,
            LexError::NumberOutOfRange => LexErrorModel::NumberOutOfRange,
            LexError::MalformedNumber => LexErrorModel::MalformedNumber,
        }
    }
}

/// A decimal digit.
pub open spec fn is_digit(c: char) -> bool {
    '0' <= c <= '9'
}

/// A character that may start a name.
pub open spec fn is_word_start(c: char) -> bool {
    ('a' <= c <= 'z') || ('A' <= c <= 'Z') || c == '_'
}

/// A character of a name.
pub open spec fn is_word_char(c: char) -> bool {
    is_digit(c) || is_word_start(c)
}

/// A character of a run that is classified as a whole (a name, a keyword or a number).
pub open spec fn is_run_char(c: char) -> bool {
    is_word_char(c) || c == '.'
}

/// The length of the maximal run of run characters starting at `i`.
pub open spec fn run_len(s: Seq<char>, i: int) -> nat
    decreases s.len() - i,
{
    if 0 <= i < s.len() && is_run_char(s[i]) {
        1 + run_len(s, i + 1)
    } else {
        0
    }
}

/// The number of characters from `i` up to the next newline or the end.
pub open spec fn line_len(s: Seq<char>, i: int) -> nat
    decreases s.len() - i,
{
    if 0 <= i < s.len() && s[i] != '\n' {
        1 + line_len(s, i + 1)
    } else {
        0
    }
}

/// The distance from `i` to the next `"`, if there is one.
pub open spec fn quote_dist(s: Seq<char>, i: int) -> Option<nat>
    decreases s.len() - i,
{
    if i < 0 || i >= s.len() {
        None
    } else if s[i] == '"' {
        Some(0)
    } else {
        match quote_dist(s, i + 1) {
            Some(d) => Some(d + 1),
            None => None,
        }
    }
}

/// The value of a sequence of decimal digits.
pub open spec fn digits_value(w: Seq<char>) -> int
    decreases w.len(),
{
    if w.len() == 0 {
        0
    } else {
        digits_value(w.drop_last()) * 10 + (w.last() as int - '0' as int)
    }
}

/// A non-empty run of decimal digits.
pub open spec fn all_digits(w: Seq<char>) -> bool {
    w.len() > 0 && forall|k: int| 0 <= k < w.len() ==> is_digit(#[trigger] w[k])
}

/// Only digits and `.`.
pub open spec fn all_digits_or_dots(w: Seq<char>) -> bool {
    forall|k: int| 0 <= k < w.len() ==> is_digit(#[trigger] w[k]) || w[k] == '.'
}

/// Only characters of a name.
pub open spec fn all_word_chars(w: Seq<char>) -> bool {
    forall|k: int| 0 <= k < w.len() ==> is_word_char(#[trigger] w[k])
}

/// The number of `.` in `w`.
pub open spec fn dot_count(w: Seq<char>) -> nat
    decreases w.len(),
{
    if w.len() == 0 {
        0
    } else {
        dot_count(w.drop_last()) + if w.last() == '.' { 1nat } else { 0nat }
    }
}

/// The token that a whole run stands for.
pub open spec fn classify(w: Seq<char>) -> Result<TokenModel, LexErrorModel> {
    if all_digits(w) {
        if digits_value(w) <= i32::MAX {
            Ok(TokenModel::Literal(LiteralModel::Integer(digits_value(w) as i32)))
        } else {
            Err(LexErrorModel::NumberOutOfRange)
        }
    } else if w.len() > 0 && is_digit(w[0]) && all_digits_or_dots(w) {
        if dot_count(w) == 1 {
            Ok(TokenModel::Literal(LiteralModel::Float(w)))
        } else {
            Err(LexErrorModel::MalformedNumber)
        }
    } else if w.len() > 0 && is_word_start(w[0]) && all_word_chars(w) {
        if w == seq!['t', 'r', 'u', 'e'] {
            Ok(TokenModel::Literal(LiteralModel::Bool(true)))
        } else if w == seq!['f', 'a', 'l', 's', 'e'] {
            Ok(TokenModel::Literal(LiteralModel::Bool(false)))
        } else {
            match keyword_of(w) {
                Some(k) => Ok(TokenModel::Keyword(k)),
                None => Ok(TokenModel::Identifier(w)),
            }
        }
    } else {
        Err(LexErrorModel::InvalidToken(w))
    }
}

/// The operator that `c` starts, with its compound-assignment flag set to `assign`.
pub open spec fn operator_of(c: char, assign: bool) -> Option<Operator> {
    if c == '+' {
        Some(Operator::Add(assign))
    } else if c == '-' {
        Some(Operator::Sub(assign))
    } else if c == '*' {
        Some(Operator::Mul(assign))
    } else if c == '/' {
        Some(Operator::Div(assign))
    } else if c == '%' {
        Some(Operator::Mod(assign))
    } else if c == '&' {
        Some(Operator::And(assign))
    } else if c == '|' {
        Some(Operator::Or(assign))
    } else if c == '^' {
        Some(Operator::Xor(assign))
    } else if c == '=' {
        Some(Operator::Equal(assign))
    } else if c == '>' {
        Some(Operator::GreaterThan(assign))
    } else if c == '<' {
        Some(Operator::LessThan(assign))
    } else if c == '!' {
        Some(Operator::Not(assign))
    } else {
        None
    }
}

/// The token whose text is the single character `c`, if there is one.
pub open spec fn single_char_token(c: char) -> Option<TokenModel> {
    if c == '(' {
        Some(TokenModel::LParen)
    } else if c == ')' {
        Some(TokenModel::RParen)
    } else if c == '{' {
        Some(TokenModel::LBrace)
    } else if c == '}' {
        Some(TokenModel::RBrace)
    } else if c == '[' {
        Some(TokenModel::LBracket)
    } else if c == ']' {
        Some(TokenModel::RBracket)
    } else if c == ';' {
        Some(TokenModel::SemiColon)
    } else if c == ':' {
        Some(TokenModel::Colon)
    } else if c == '.' {
        Some(TokenModel::Dot)
    } else if c == ',' {
        Some(TokenModel::Comma)
    } else if c == ' ' || c == '\t' || c == '\n' {
        Some(TokenModel::Whitespace(c))
    } else {
        None
    }
}

/// The token that starts at `i`, with the number of further characters it takes.
pub open spec fn step(s: Seq<char>, i: int) -> Result<(TokenModel, nat), LexErrorModel> {
    let c = s[i];
    let next_is = |d: char| i + 1 < s.len() && s[i + 1] == d;
    if single_char_token(c) is Some {
        Ok((single_char_token(c)->0, 0))
    } else if c == '-' && next_is('>') {
        Ok((TokenModel::Op(Operator::Arrow), 1))
    } else if c == '/' && next_is('/') {
        let n = line_len(s, i + 2);
        Ok((TokenModel::Comment(s.subrange(i + 2, i + 2 + n)), n + 1))
    } else if operator_of(c, false) is Some {
        let assign = next_is('=');
        Ok((TokenModel::Op(operator_of(c, assign)->0), if assign { 1nat } else { 0nat }))
    } else if c == '"' {
        match quote_dist(s, i + 1) {
            Some(d) => Ok((TokenModel::Literal(LiteralModel::Str(s.subrange(i + 1, i + 1 + d))), d + 1)),
            None => Err(LexErrorModel::UnterminatedLiteral),
        }
    } else if is_word_char(c) {
        let n = run_len(s, i);
        match classify(s.subrange(i, i + n)) {
            Ok(t) => Ok((t, (n - 1) as nat)),
            Err(e) => Err(e),
        }
    } else {
        Err(LexErrorModel::InvalidToken(seq![c]))
    }
}

/// The tokens of `s` from position `i` on.
pub open spec fn lex_from(s: Seq<char>, i: int) -> Result<Seq<TokenModel>, LexErrorModel>
    decreases s.len() - i,
{
    if i < 0 || i >= s.len() {
        Ok(Seq::empty())
    } else {
        match step(s, i) {
            Err(e) => Err(e),
            Ok((t, k)) => {
                let rest = if i + k + 1 < s.len() {
                    lex_from(s, i + k + 1)
                } else {
                    Ok(Seq::empty())
                };
                match rest {
                    Ok(rest) => Ok(seq![t] + rest),
                    Err(e) => Err(e),
                }
            },
        }
    }
}

/// The tokens of a whole source text.
pub open spec fn lex(s: Seq<char>) -> Result<Seq<TokenModel>, LexErrorModel> {
    lex_from(s, 0)
}

/// Puts the tokens `p` in front of a lexing result.
pub open spec fn prepend(p: Seq<TokenModel>, r: Result<Seq<TokenModel>, LexErrorModel>) -> Result<
    Seq<TokenModel>,
    LexErrorModel,
> {
    match r {
        Ok(x) => Ok(p + x),
        Err(e) => Err(e),
    }
}

fn digit(c: char) -> (r: bool)
    ensures
        r == is_digit(c),
{
    '0' <= c && c <= '9'
}

fn word_start(c: char) -> (r: bool)
    ensures
        r == is_word_start(c),
{
    ('a' <= c && c <= 'z') || ('A' <= c && c <= 'Z') || c == '_'
}

fn word_char(c: char) -> (r: bool)
    ensures
        r == is_word_char(c),
{
    digit(c) || word_start(c)
}

/// The end of the maximal run of run characters that starts at `i`.
fn run_end(s: &Vec<char>, i: usize) -> (r: usize)
    requires
        i <= s@.len(),
    ensures
        r == i + run_len(s@, i as int),
        r <= s@.len(),
{
    let mut j: usize = i;
    while j < s.len() && (word_char(s[j]) || s[j] == '.')
        invariant
            i <= j <= s@.len(),
            run_len(s@, i as int) == (j - i) + run_len(s@, j as int),
        decreases s@.len() - j,
    {
        j = j + 1;
    }
    j
}

/// The position of the next newline at or after `i`, or the end.
fn line_end(s: &Vec<char>, i: usize) -> (r: usize)
    requires
        i <= s@.len(),
    ensures
        r == i + line_len(s@, i as int),
        r <= s@.len(),
{
    let mut j: usize = i;
    while j < s.len() && s[j] != '\n'
        invariant
            i <= j <= s@.len(),
            line_len(s@, i as int) == (j - i) + line_len(s@, j as int),
        decreases s@.len() - j,
    {
        j = j + 1;
    }
    j
}

/// The position of the next `"` at or after `i`, if there is one.
fn find_quote(s: &Vec<char>, i: usize) -> (r: Option<usize>)
    requires
        i <= s@.len(),
    ensures
        match quote_dist(s@, i as int) {
            Some(d) => r == Some((i + d) as usize) && i + d < s@.len(),
            None => r is None,
        },
{
    let mut j: usize = i;
    while j < s.len()
        invariant
            i <= j <= s@.len(),
            quote_dist(s@, i as int) == match quote_dist(s@, j as int) {
                Some(d) => Some((d + j - i) as nat),
                None => None,
            },
        decreases s@.len() - j,
    {
        if s[j] == '"' {
            return Some(j);
        }
        j = j + 1;
    }
    None
}

/// The characters of `s` from `i` up to `j`.
fn copy_range(s: &Vec<char>, i: usize, j: usize) -> (r: Vec<char>)
    requires
        i <= j <= s@.len(),
    ensures
        r@ == s@.subrange(i as int, j as int),
{
    let mut r: Vec<char> = Vec::new();
    let mut k: usize = i;
    while k < j
        invariant
            i <= k <= j <= s@.len(),
            r@ == s@.subrange(i as int, k as int),
        decreases j - k,
    {
        r.push(s[k]);
        k = k + 1;
        assert(r@ =~= s@.subrange(i as int, k as int));
    }
    r
}

proof fn lemma_digits_value_nonneg(w: Seq<char>)
    requires
        forall|k: int| 0 <= k < w.len() ==> is_digit(#[trigger] w[k]),
    ensures
        digits_value(w) >= 0,
    decreases w.len(),
{
    if w.len() > 0 {
        lemma_digits_value_nonneg(w.drop_last());
    }
}

/// A prefix of a digit sequence has no greater value than the whole.
proof fn lemma_digits_value_prefix(w: Seq<char>, k: int)
    requires
        forall|m: int| 0 <= m < w.len() ==> is_digit(#[trigger] w[m]),
        0 <= k <= w.len(),
    ensures
        digits_value(w.take(k)) <= digits_value(w),
    decreases w.len(),
{
    if k == w.len() {
        assert(w.take(k) =~= w);
    } else {
        assert(w.take(k) =~= w.drop_last().take(k));
        lemma_digits_value_prefix(w.drop_last(), k);
        lemma_digits_value_nonneg(w.drop_last());
    }
}

/// The token that a whole run stands for.
fn classify_run(w: &Vec<char>) -> (r: Result<Token, LexError>)
    ensures
        match r {
            Ok(t) => classify(w@) == Ok::<TokenModel, LexErrorModel>(t@),
            Err(e) => classify(w@) == Err::<TokenModel, LexErrorModel>(e@),
        },
{
    let n = w.len();
    let mut digits = true;
    let mut digits_or_dots = true;
    let mut words = true;
    let mut dots: usize = 0;
    let mut k: usize = 0;
    while k < n
        invariant
            n == w@.len(),
            0 <= k <= n,
            dots <= k,
            dots == dot_count(w@.take(k as int)),
            digits == (forall|m: int| 0 <= m < k ==> is_digit(#[trigger] w@[m])),
            digits_or_dots == (forall|m: int| 0 <= m < k ==> is_digit(#[trigger] w@[m]) || w@[m] == '.'),
            words == (forall|m: int| 0 <= m < k ==> is_word_char(#[trigger] w@[m])),
        decreases n - k,
    {
        let c = w[k];
        assert(w@.take(k + 1).drop_last() =~= w@.take(k as int));
        if !digit(c) {
            digits = false;
        }
        if !digit(c) && c != '.' {
            digits_or_dots = false;
        }
        if !word_char(c) {
            words = false;
        }
        if c == '.' {
            dots = dots + 1;
        }
        k = k + 1;
    }
    assert(w@.take(n as int) =~= w@);
    if n > 0 && digits {
        let mut acc: u64 = 0;
        let mut k: usize = 0;
        while k < n
            invariant
                n == w@.len(),
                all_digits(w@),
                0 <= k <= n,
                acc == digits_value(w@.take(k as int)),
                acc <= i32::MAX,
            decreases n - k,
        {
            assert(w@.take(k + 1).drop_last() =~= w@.take(k as int));
            acc = acc * 10 + (w[k] as u64 - '0' as u64);
            k = k + 1;
            if acc > 2147483647 {
                proof {
                    lemma_digits_value_prefix(w@, k as int);
                }
                return Err(LexError::NumberOutOfRange);
            }
        }
        return Ok(Token::Literal(Literal::Integer(acc as i32)));
    }
    if n > 0 && digit(w[0]) && digits_or_dots {
        if dots == 1 {
            return Ok(Token::Literal(Literal::Float(string_of(w.as_slice()))));
        }
        return Err(LexError::MalformedNumber);
    }
    if n > 0 && word_start(w[0]) && words {
        if crate::keyword::chars_equal(w.as_slice(), &['t', 'r', 'u', 'e']) {
            return Ok(Token::Literal(Literal::Bool(true)));
        }
        if crate::keyword::chars_equal(w.as_slice(), &['f', 'a', 'l', 's', 'e']) {
            return Ok(Token::Literal(Literal::Bool(false)));
        }
        return match lookup_keyword(w.as_slice()) {
            Some(k) => Ok(Token::Keyword(k)),
            None => Ok(Token::Identifier(Identifier::new(string_of(w.as_slice())))),
        };
    }
    Err(LexError::InvalidToken(string_of(w.as_slice())))
}

/// The token of a character that is a token by itself.
fn single_char(c: char) -> (r: Option<Token>)
    ensures
        match r {
            Some(t) => single_char_token(c) == Some(t@),
            None => single_char_token(c) is None,
        },
{
    if c == '(' {
        Some(Token::LParen)
    } else if c == ')' {
        Some(Token::RParen)
    } else if c == '{' {
        Some(Token::LBrace)
    } else if c == '}' {
        Some(Token::RBrace)
    } else if c == '[' {
        Some(Token::LBracket)
    } else if c == ']' {
        Some(Token::RBracket)
    } else if c == ';' {
        Some(Token::SemiColon)
    } else if c == ':' {
        Some(Token::Colon)
    } else if c == '.' {
        Some(Token::Dot)
    } else if c == ',' {
        Some(Token::Comma)
    } else if c == ' ' || c == '\t' || c == '\n' {
        Some(Token::Whitespace { value: c })
    } else {
        None
    }
}

/// The operator that `c` starts.
fn operator_char(c: char, assign: bool) -> (r: Option<Operator>)
    ensures
        r == operator_of(c, assign),
{
    if c == '+' {
        Some(Operator::Add(assign))
    } else if c == '-' {
        Some(Operator::Sub(assign))
    } else if c == '*' {
        Some(Operator::Mul(assign))
    } else if c == '/' {
        Some(Operator::Div(assign))
    } else if c == '%' {
        Some(Operator::Mod(assign))
    } else if c == '&' {
        Some(Operator::And(assign))
    } else if c == '|' {
        Some(Operator::Or(assign))
    } else if c == '^' {
        Some(Operator::Xor(assign))
    } else if c == '=' {
        Some(Operator::Equal(assign))
    } else if c == '>' {
        Some(Operator::GreaterThan(assign))
    } else if c == '<' {
        Some(Operator::LessThan(assign))
    } else if c == '!' {
        Some(Operator::Not(assign))
    } else {
        None
    }
}

/// The token that starts at `i`, with the number of further characters it takes.
fn next_token(s: &Vec<char>, i: usize) -> (r: Result<(Token, usize), LexError>)
    requires
        i < s@.len(),
    ensures
        match r {
            Ok((t, n)) => step(s@, i as int) == Ok::<(TokenModel, nat), LexErrorModel>((t@, n as nat))
                && i + n + 1 <= s@.len(),
            Err(e) => step(s@, i as int) == Err::<(TokenModel, nat), LexErrorModel>(e@),
        },
{
    let c = s[i];
    let has_next = s.len() - i > 1;
    let next_eq = has_next && s[i + 1] == '=';
    if let Some(t) = single_char(c) {
        return Ok((t, 0));
    }
    if c == '-' && has_next && s[i + 1] == '>' {
        return Ok((Token::Op(Operator::Arrow), 1));
    }
    if c == '/' && has_next && s[i + 1] == '/' {
        let e = line_end(s, i + 2);
        let body = copy_range(s, i + 2, e);
        return Ok((Token::Comment(string_of(body.as_slice())), e - i - 1));
    }
    if let Some(_) = operator_char(c, false) {
        if let Some(op) = operator_char(c, next_eq) {
            return Ok((Token::Op(op), if next_eq { 1 } else { 0 }));
        }
    }
    if c == '"' {
        return match find_quote(s, i + 1) {
            Some(q) => {
                let body = copy_range(s, i + 1, q);
                Ok((Token::Literal(Literal::String(string_of(body.as_slice()))), q - i))
            },
            None => Err(LexError::UnterminatedLiteral),
        };
    }
    if word_char(c) {
        let e = run_end(s, i);
        let w = copy_range(s, i, e);
        return match classify_run(&w) {
            Ok(t) => Ok((t, e - i - 1)),
            Err(err) => Err(err),
        };
    }
    let mut bad: Vec<char> = Vec::new();
    bad.push(c);
    assert(bad@ =~= seq![c]);
    Err(LexError::InvalidToken(string_of(bad.as_slice())))
}

/// Splits a sequence of characters into tokens.
pub fn tokenize_chars(s: &Vec<char>) -> (r: Result<Vec<Token>, LexError>)
    ensures
        match r {
            Ok(v) => lex(s@) == Ok::<Seq<TokenModel>, LexErrorModel>(tokens_view(v@)),
            Err(e) => lex(s@) == Err::<Seq<TokenModel>, LexErrorModel>(e@),
        },
{
    let mut out: Vec<Token> = Vec::new();
    let mut i: usize = 0;
    assert(tokens_view(out@) =~= Seq::empty());
    assert(prepend(Seq::empty(), lex_from(s@, 0)) == lex_from(s@, 0)) by {
        match lex_from(s@, 0) {
            Ok(x) => {
                assert(Seq::<TokenModel>::empty() + x =~= x);
            },
            Err(_) => {},
        }
    }
    while i < s.len()
        invariant
            i <= s@.len(),
            lex(s@) == prepend(tokens_view(out@), lex_from(s@, i as int)),
        decreases s@.len() - i,
    {
        match next_token(s, i) {
            Err(e) => {
                return Err(e);
            },
            Ok((t, n)) => {
                let ghost p = tokens_view(out@);
                let ghost tv = t@;
                let j = i + n + 1;
                proof {
                    let rest = lex_from(s@, j as int);
                    assert(lex_from(s@, i as int) == match rest {
                        Ok(x) => Ok(seq![tv] + x),
                        Err(e) => Err(e),
                    });
                    match rest {
                        Ok(x) => {
                            assert(p + (seq![tv] + x) =~= p.push(tv) + x);
                        },
                        Err(_) => {},
                    }
                }
                out.push(t);
                assert(tokens_view(out@) =~= p.push(tv));
                i = j;
            },
        }
    }
    assert(tokens_view(out@) + Seq::<TokenModel>::empty() =~= tokens_view(out@));
    Ok(out)
}

/// Splits source text into tokens.
pub fn tokenize_source(source: &str) -> (r: Result<Vec<Token>, LexError>)
    ensures
        match r {
            Ok(v) => lex(source@) == Ok::<Seq<TokenModel>, LexErrorModel>(tokens_view(v@)),
            Err(e) => lex(source@) == Err::<Seq<TokenModel>, LexErrorModel>(e@),
        },
{
    let s = chars_of(source);
    tokenize_chars(&s)
}

/// Collects the tokens of source texts.
#[derive(Debug)]
pub struct Tokenizer {
    tokens: Vec<Token>,
}

impl Default for Tokenizer {
    fn default() -> (r: Tokenizer)
        ensures
            r.token_models() == Seq::<TokenModel>::empty(),
    {
        let r = Tokenizer { tokens: Vec::new() };
        assert(r.token_models() =~= Seq::<TokenModel>::empty());
        r
    }
}

impl Tokenizer {
    /// The models of the tokens collected so far.
    pub closed spec fn token_models(&self) -> Seq<TokenModel> {
        tokens_view(self.tokens@)
    }

    /// The tokens collected so far.
    pub fn tokens(&self) -> (r: &Vec<Token>)
        ensures
            tokens_view(r@) == self.token_models(),
    {
        &self.tokens
    }

    /// Splits `source` into tokens and appends them to those collected so far.
    /// On an error nothing is appended.
    pub fn tokenize(&mut self, source: String) -> (r: Result<(), LexError>)
        ensures
            match r {
                Ok(()) => lex(source@) is Ok && final(self).token_models() == old(self).token_models()
                    + lex(source@)->Ok_0,
                Err(e) => lex(source@) == Err::<Seq<TokenModel>, LexErrorModel>(e@)
                    && final(self).token_models() == old(self).token_models(),
            },
    {
        match tokenize_source(source.as_str()) {
            Ok(mut v) => {
                let ghost a = tokens_view(self.tokens@);
                let ghost b = tokens_view(v@);
                self.tokens.append(&mut v);
                assert(tokens_view(self.tokens@) =~= a + b);
                Ok(())
            },
            Err(e) => Err(e),
        }
    }

    /// Moves the collected tokens out.
    pub fn into_tokens(self) -> (r: Vec<Token>)
        ensures
            tokens_view(r@) == self.token_models(),
    {
        self.tokens
    }
}

/// Whether rendering a token and lexing the text gives the token back: the
/// delimiters and punctuation, whitespace, operators, and comments (whose text
/// holds no newline).
pub open spec fn round_trips(t: TokenModel) -> bool {
    match t {
        TokenModel::Whitespace(c) => c == ' ' || c == '\t' || c == '\n',
        TokenModel::Comment(c) => forall|k: int| 0 <= k < c.len() ==> #[trigger] c[k] != '\n',
        TokenModel::Identifier(_) | TokenModel::Literal(_) | TokenModel::Keyword(_) => false,
        _ => true,
    }
}

proof fn lemma_line_len_to_end(s: Seq<char>, i: int)
    requires
        0 <= i <= s.len(),
        forall|k: int| i <= k < s.len() ==> #[trigger] s[k] != '\n',
    ensures
        line_len(s, i) == s.len() - i,
    decreases s.len() - i,
{
    if i < s.len() {
        lemma_line_len_to_end(s, i + 1);
    }
}

proof fn lemma_run_len_to_end(s: Seq<char>, i: int)
    requires
        0 <= i <= s.len(),
        forall|k: int| i <= k < s.len() ==> is_run_char(#[trigger] s[k]),
    ensures
        run_len(s, i) == s.len() - i,
    decreases s.len() - i,
{
    if i < s.len() {
        lemma_run_len_to_end(s, i + 1);
    }
}

/// Lexing text whose first token spans it whole gives that token alone.
proof fn lemma_lex_single(s: Seq<char>, t: TokenModel)
    requires
        s.len() > 0,
        step(s, 0) == Ok::<(TokenModel, nat), LexErrorModel>((t, (s.len() - 1) as nat)),
    ensures
        lex(s) == Ok::<Seq<TokenModel>, LexErrorModel>(seq![t]),
{
    assert(seq![t] + Seq::<TokenModel>::empty() =~= seq![t]);
}

/// Rendering a delimiter, punctuation, whitespace, operator or comment token and
/// lexing the text gives back exactly that token.
pub proof fn lemma_render_round_trip(t: TokenModel)
    requires
        round_trips(t),
    ensures
        lex(crate::token::token_text(t)) == Ok::<Seq<TokenModel>, LexErrorModel>(seq![t]),
{
    let s = crate::token::token_text(t);
    match t {
        TokenModel::Comment(c) => {
            assert(s[0] == '/' && s[1] == '/');
            assert(forall|k: int| 2 <= k < s.len() ==> s[k] == c[k - 2]);
            lemma_line_len_to_end(s, 2);
            assert(s.subrange(2, s.len() as int) =~= c);
            lemma_lex_single(s, t);
        },
        TokenModel::Op(o) => {
            match o {
                Operator::Arrow => {
                    assert(s == seq!['-', '>']);
                },
                _ => {
                    assert(o.symbol().len() == 1);
                    if o.spec_is_assignment_op() {
                        assert(s == o.symbol().push('='));
                        assert(s[1] == '=');
                    }
                },
            }
            lemma_lex_single(s, t);
        },
        _ => {
            lemma_lex_single(s, t);
        },
    }
}

/// A run of decimal digits lexes to one integer of its value when that fits in
/// `i32`, and fails with `NumberOutOfRange` otherwise.
pub proof fn lemma_lex_digits(w: Seq<char>)
    requires
        all_digits(w),
    ensures
        digits_value(w) <= i32::MAX ==> lex(w) == Ok::<Seq<TokenModel>, LexErrorModel>(
            seq![TokenModel::Literal(LiteralModel::Integer(digits_value(w) as i32))],
        ),
        digits_value(w) > i32::MAX ==> lex(w) == Err::<Seq<TokenModel>, LexErrorModel>(
            LexErrorModel::NumberOutOfRange,
        ),
{
    lemma_run_len_to_end(w, 0);
    assert(w.subrange(0, w.len() as int) =~= w);
    let c = w[0];
    assert(is_digit(c));
    if digits_value(w) <= i32::MAX {
        lemma_lex_single(w, TokenModel::Literal(LiteralModel::Integer(digits_value(w) as i32)));
    }
}

/// The decimal text of a natural number is a run of digits whose value is that number.
proof fn lemma_nat_text_digits(n: nat)
    ensures
        all_digits(crate::token::nat_text(n)),
        digits_value(crate::token::nat_text(n)) == n,
    decreases n,
{
    let t = crate::token::nat_text(n);
    let d = crate::token::digit_char(n % 10);
    assert(d as int - '0' as int == n % 10);
    if n >= 10 {
        let p = crate::token::nat_text(n / 10);
        lemma_nat_text_digits(n / 10);
        assert(t == p.push(d));
        assert(t.drop_last() =~= p);
        assert forall|k: int| 0 <= k < t.len() implies is_digit(#[trigger] t[k]) by {
            if k < p.len() {
                assert(t[k] == p[k]);
            }
        }
        assert(digits_value(t) == digits_value(p) * 10 + (n % 10));
        assert((n / 10) * 10 + n % 10 == n) by (nonlinear_arith);
    } else {
        assert(n % 10 == n);
        assert(t.drop_last() =~= Seq::<char>::empty());
        assert(t.last() == d);
        assert(digits_value(t.drop_last()) == 0);
    }
}

/// The decimal text of a non-negative `i32` lexes to that integer alone.
pub proof fn lemma_integer_text_round_trip(n: i32)
    requires
        n >= 0,
    ensures
        lex(crate::token::int_text(n as int)) == Ok::<Seq<TokenModel>, LexErrorModel>(
            seq![TokenModel::Literal(LiteralModel::Integer(n))],
        ),
{
    lemma_nat_text_digits(n as nat);
    lemma_lex_digits(crate::token::int_text(n as int));
}

} // verus!
