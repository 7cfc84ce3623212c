//! Reserved words of the language.
use vstd::prelude::*;

verus! {

/// A reserved word. Each has exactly one spelling, matched case-sensitively.
#[derive(Debug, Clone, Copy, PartialEq, Eq, Structural)]
pub enum Keyword {
    /// `ret`
    Return,
    /// `if`
    If,
    /// `else`
    Else,
    /// `func`
    Func,
    /// `let`
    Let,
    /// `mut`
    Mut,
    /// `while`
    While,
    /// `for`
    For,
    /// `lambda`
    Lambda,
    /// `class`
    Class,
}

impl Keyword {
    /// How the keyword is written in source text.
    pub open spec fn spelling(self) -> Seq<char> {
        match self {
            Keyword::Return => seq!['r', 'e', 't'],
            Keyword::If => seq!['i', 'f'],
            Keyword::Else => seq!['e', 'l', 's', 'e'],
            Keyword::Func => seq!['f', 'u', 'n', 'c'],
            Keyword::Let => seq!['l', 'e', 't'],
            Keyword::Mut => seq!['m', 'u', 't'],
            Keyword::While => seq!['w', 'h', 'i', 'l', 'e'],
            Keyword::For => seq!['f', 'o', 'r'],
            Keyword::Lambda => seq!['l', 'a', 'm', 'b', 'd', 'a'],
            Keyword::Class => seq!['c', 'l', 'a', 's', 's'],
        }
    }

    /// The characters that spell the keyword.
    pub fn render(&self) -> (r: Vec<char>)
        ensures
            r@ == self.spelling(),
    {
        let r = match self {
            Keyword::Return => vec!['r', 'e', 't'],
            Keyword::If => vec!['i', 'f'],
            Keyword::Else => vec!['e', 'l', 's', 'e'],
            Keyword::Func => vec!['f', 'u', 'n', 'c'],
            Keyword::Let => vec!['l', 'e', 't'],
            Keyword::Mut => vec!['m', 'u', 't'],
            Keyword::While => vec!['w', 'h', 'i', 'l', 'e'],
            Keyword::For => vec!['f', 'o', 'r'],
            Keyword::Lambda => vec!['l', 'a', 'm', 'b', 'd', 'a'],
            Keyword::Class => vec!['c', 'l', 'a', 's', 's'],
        };
        assert(r@ =~= self.spelling());
        r
    }
}

/// The keyword spelled by `w`, if any.
pub open spec fn keyword_of(w: Seq<char>) -> Option<Keyword> {
    if w == Keyword::Return.spelling() {
        Some(Keyword::Return)
    } else if w == Keyword::If.spelling() {
        Some(Keyword::If)
    } else if w == Keyword::Else.spelling() {
        Some(Keyword::Else)
    } else if w == Keyword::Func.spelling() {
        Some(Keyword::Func)
    } else if w == Keyword::Let.spelling() {
        Some(Keyword::Let)
    } else if w == Keyword::Mut.spelling() {
        Some(Keyword::Mut)
    } else if w == Keyword::While.spelling() {
        Some(Keyword::While)
    } else if w == Keyword::For.spelling() {
        Some(Keyword::For)
    } else if w == Keyword::Lambda.spelling() {
        Some(Keyword::Lambda)
    } else if w == Keyword::Class.spelling() {
        Some(Keyword::Class)
    } else {
        None
    }
}

/// Whether `w` is exactly the characters of `lit`.
pub fn chars_equal(w: &[char], lit: &[char]) -> (r: bool)
    ensures
        r == (w@ == lit@),
{
    if w.len() != lit.len() {
        return false;
    }
    let mut i: usize = 0;
    while i < w.len()
        invariant
            w@.len() == lit@.len(),
            0 <= i <= w@.len(),
            forall|k: int| 0 <= k < i ==> w@[k] == lit@[k],
        decreases w@.len() - i,
    {
        if w[i] != lit[i] {
            return false;
        }
        i = i + 1;
    }
    assert(w@ =~= lit@);
    true
}

/// Looks up the keyword spelled by `w`.
pub fn lookup_keyword(w: &[char]) -> (r: Option<Keyword>)
    ensures
        r == keyword_of(w@),
{
    let r = if chars_equal(w, &['r', 'e', 't']) {
        Some(Keyword::Return)
    } else if chars_equal(w, &['i', 'f']) {
        Some(Keyword::If)
    } else if chars_equal(w, &['e', 'l', 's', 'e']) {
        Some(Keyword::Else)
    } else if chars_equal(w, &['f', 'u', 'n', 'c']) {
        Some(Keyword::Func)
    } else if chars_equal(w, &['l', 'e', 't']) {
        Some(Keyword::Let)
    } else if chars_equal(w, &['m', 'u', 't']) {
        Some(Keyword::Mut)
    } else if chars_equal(w, &['w', 'h', 'i', 'l', 'e']) {
        Some(Keyword::While)
    } else if chars_equal(w, &['f', 'o', 'r']) {
        Some(Keyword::For)
    } else if chars_equal(w, &['l', 'a', 'm', 'b', 'd', 'a']) {
        Some(Keyword::Lambda)
    } else if chars_equal(w, &['c', 'l', 'a', 's', 's']) {
        Some(Keyword::Class)
    } else {
        None
    };
    r
}

} // verus!
