//! A bidirectional cursor over a sequence of tokens.
use vstd::prelude::*;
use crate::token::{tokens_view, Token, TokenModel};
use crate::tokenizer::Tokenizer;

verus! {

/// Walks a sequence of items in both directions.
pub trait BidirctionalIterator {
    /// The type of the items
    type Item;

    /// The item at the cursor
    fn current(&mut self) -> Option<Self::Item>;

    /// The item at the cursor, moving the cursor forward
    fn next(&mut self) -> Option<Self::Item>;

    /// Moves the cursor back and returns the item there
    fn prev(&mut self) -> Option<Self::Item>;

    /// The item after the cursor, without moving
    fn peek_next(&mut self) -> Option<Self::Item>;

    /// The item before the cursor, without moving
    fn peek_prev(&mut self) -> Option<Self::Item>;
}

/// A cursor over an owned sequence of tokens. The tokens never change; only
/// the position moves, and it never goes past the end.
#[derive(Debug, Clone)]
pub struct TokenIter {
    index: usize,
    tokens: Vec<Token>,
}

/// A copy of the token at `i`, if `i` is in range.
pub open spec fn model_at(s: Seq<Token>, i: int) -> Option<TokenModel> {
    if 0 <= i < s.len() {
        Some(s[i]@)
    } else {
        None
    }
}

/// The model of an optional token.
pub open spec fn opt_view(t: Option<Token>) -> Option<TokenModel> {
    match t {
        Some(t) => Some(t@),
        None => None,
    }
}

impl TokenIter {
    /// The tokens under the cursor.
    pub closed spec fn items(&self) -> Seq<Token> {
        self.tokens@
    }

    /// The position of the cursor.
    pub closed spec fn pos(&self) -> nat {
        self.index as nat
    }

    /// The position never passes the end.
    pub closed spec fn wf(&self) -> bool {
        self.index <= self.tokens@.len()
    }

    /// A cursor at the start of `tokens`.
    pub fn new(tokens: Vec<Token>) -> (r: TokenIter)
        ensures
            r.wf(),
            r.items() == tokens@,
            r.pos() == 0,
    {
        TokenIter { index: 0, tokens }
    }

    /// A cursor at the start of the tokens collected by `tokenizer`.
    pub fn from_tokenizer(tokenizer: Tokenizer) -> (r: TokenIter)
        ensures
            r.wf(),
            tokens_view(r.items()) == tokenizer.token_models(),
            r.pos() == 0,
    {
        TokenIter { index: 0, tokens: tokenizer.into_tokens() }
    }

    /// The number of tokens.
    pub fn len(&self) -> (r: usize)
        ensures
            r == self.items().len(),
    {
        self.tokens.len()
    }

    /// The token at position `i`.
    pub fn at(&self, i: usize) -> (r: &Token)
        requires
            i < self.items().len(),
        ensures
            *r == self.items()[i as int],
    {
        &self.tokens[i]
    }

    fn get(&self, i: usize) -> (r: Option<Token>)
        ensures
            opt_view(r) == model_at(self.items(), i as int),
    {
        if i < self.tokens.len() {
            Some(self.tokens[i].duplicate())
        } else {
            None
        }
    }

    /// The token at the cursor.
    pub fn current(&self) -> (r: Option<Token>)
        ensures
            opt_view(r) == model_at(self.items(), self.pos() as int),
    {
        self.get(self.index)
    }

    /// The token at the cursor; the cursor then moves one step forward, unless it is at the end.
    pub fn next(&mut self) -> (r: Option<Token>)
        requires
            old(self).wf(),
        ensures
            final(self).wf(),
            final(self).items() == old(self).items(),
            opt_view(r) == model_at(old(self).items(), old(self).pos() as int),
            final(self).pos() == if old(self).pos() < old(self).items().len() {
                old(self).pos() + 1
            } else {
                old(self).pos() + 0
            },
    {
        if self.index >= self.tokens.len() {
            return None;
        }
        let value = self.get(self.index);
        self.index = self.index + 1;
        value
    }

    /// Moves the cursor one step back and returns the token there; `None` at the start.
    pub fn prev(&mut self) -> (r: Option<Token>)
        requires
            old(self).wf(),
        ensures
            final(self).wf(),
            final(self).items() == old(self).items(),
            old(self).pos() == 0 ==> r is None && final(self).pos() == 0,
            old(self).pos() > 0 ==> final(self).pos() == old(self).pos() - 1 && opt_view(r)
                == model_at(old(self).items(), old(self).pos() - 1),
    {
        if self.index == 0 {
            return None;
        }
        self.index = self.index - 1;
        self.get(self.index)
    }

    /// The token after the one at the cursor.
    pub fn peek_next(&self) -> (r: Option<Token>)
        requires
            self.wf(),
        ensures
            opt_view(r) == model_at(self.items(), self.pos() as int + 1),
    {
        if self.index < self.tokens.len() {
            self.get(self.index + 1)
        } else {
            None
        }
    }

    /// The token before the one at the cursor; `None` at the start.
    pub fn peek_prev(&self) -> (r: Option<Token>)
        ensures
            opt_view(r) == model_at(self.items(), self.pos() - 1),
    {
        if self.index == 0 {
            None
        } else {
            self.get(self.index - 1)
        }
    }

    /// A new cursor, at the start, over the tokens for which `predicate` holds, in order.
    pub fn filter<P: Fn(&Token) -> bool>(self, predicate: P) -> (r: TokenIter)
        requires
            forall|t: &Token| #[trigger] predicate.requires((t,)),
            forall|t: &Token, a: bool, b: bool|
                #[trigger] predicate.ensures((t,), a) && #[trigger] predicate.ensures((t,), b)
                    ==> a == b,
        ensures
            r.wf(),
            r.pos() == 0,
            r.items() == self.items().filter(|t: Token| predicate.ensures((&t,), true)),
            forall|i: int|
                0 <= i < self.items().len() ==> predicate.ensures((&self.items()[i],), true)
                    || predicate.ensures((&self.items()[i],), false),
    {
        let ghost keep = |t: Token| predicate.ensures((&t,), true);
        let ghost all = self.tokens@;
        let mut rest = self.tokens;
        let mut out: Vec<Token> = Vec::new();
        let ghost mut i: int = 0;
        proof {
            reveal(Seq::filter);
            assert(all.take(0).filter(keep) =~= Seq::<Token>::empty());
            assert(all.skip(0) =~= all);
        }
        while rest.len() > 0
            invariant
                forall|t: &Token| #[trigger] predicate.requires((t,)),
                forall|t: &Token, a: bool, b: bool|
                    #[trigger] predicate.ensures((t,), a) && #[trigger] predicate.ensures((t,), b)
                        ==> a == b,
                keep == (|t: Token| predicate.ensures((&t,), true)),
                0 <= i <= all.len(),
                rest@ == all.skip(i),
                out@ == all.take(i).filter(keep),
                forall|k: int|
                    0 <= k < i ==> predicate.ensures((&all[k],), true)
                        || predicate.ensures((&all[k],), false),
            decreases rest@.len(),
        {
            let t = rest.remove(0);
            let b = predicate(&t);
            proof {
                reveal(Seq::filter);
                assert(t == all[i]);
                assert(all.take(i + 1).drop_last() =~= all.take(i));
                assert(all.take(i + 1).last() == t);
                assert(b ==> keep(t));
                assert(!b ==> !keep(t));
                assert(rest@ =~= all.skip(i + 1));
            }
            if b {
                out.push(t);
            }
            proof {
                i = i + 1;
            }
        }
        assert(all.take(i) =~= all);
        TokenIter { index: 0, tokens: out }
    }
}

impl BidirctionalIterator for TokenIter {
    type Item = Token;

    fn current(&mut self) -> Option<Token> {
        TokenIter::current(self)
    }

    fn next(&mut self) -> Option<Token> {
        if self.index >= self.tokens.len() {
            return None;
        }
        let value = self.get(self.index);
        self.index = self.index + 1;
        value
    }

    fn prev(&mut self) -> Option<Token> {
        if self.index == 0 {
            return None;
        }
        self.index = self.index - 1;
        self.get(self.index)
    }

    fn peek_next(&mut self) -> Option<Token> {
        if self.index < self.tokens.len() {
            self.get(self.index + 1)
        } else {
            None
        }
    }

    fn peek_prev(&mut self) -> Option<Token> {
        TokenIter::peek_prev(self)
    }
}

/// Filtering twice with one predicate keeps what filtering once keeps.
pub proof fn lemma_filter_idempotent(s: Seq<Token>, keep: spec_fn(Token) -> bool)
    ensures
        s.filter(keep).filter(keep) == s.filter(keep),
{
    let f = s.filter(keep);
    s.filter_lemma(keep);
    lemma_filter_keeps_all(f, keep);
}

proof fn lemma_filter_keeps_all(s: Seq<Token>, keep: spec_fn(Token) -> bool)
    requires
        forall|i: int| 0 <= i < s.len() ==> keep(#[trigger] s[i]),
    ensures
        s.filter(keep) == s,
    decreases s.len(),
{
    reveal(Seq::filter);
    if s.len() > 0 {
        lemma_filter_keeps_all(s.drop_last(), keep);
        assert(s.drop_last().push(s.last()) =~= s);
    } else {
        assert(s.filter(keep) =~= s);
    }
}

} // verus!
