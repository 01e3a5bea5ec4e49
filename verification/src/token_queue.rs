//! The parser's queue of lexed tokens.

use crate::token::GraphQLToken;
use crate::token::GraphQLTokenKind;
use vstd::prelude::*;

verus! {

/// The lexed tokens of a document, which the parser peeks at and consumes
/// in order.
pub struct TokenQueue {
    /// The unconsumed tokens, the next one last.
    pending: Vec<GraphQLToken>,
}

impl View for TokenQueue {
    type V = Seq<GraphQLToken>;

    /// The unconsumed tokens, in order.
    closed spec fn view(&self) -> Seq<GraphQLToken> {
        self.pending@.reverse()
    }
}

/// The `n`-th element of `s.reverse()` is the `n`-th element from the end of `s`.
proof fn lemma_reverse_index<T>(s: Seq<T>, n: int)
    requires
        0 <= n < s.len(),
    ensures
        s.reverse().len() == s.len(),
        s.reverse()[n] == s[s.len() - 1 - n],
{
}

impl TokenQueue {
    /// Creates a queue of the given tokens.
    pub fn new(tokens: Vec<GraphQLToken>) -> (s: TokenQueue)
        ensures
            s@ == tokens@,
    {
        let mut rest = tokens;
        let ghost orig = rest@;
        let mut out: Vec<GraphQLToken> = Vec::new();
        while rest.len() > 0
            invariant
                rest@ + out@.reverse() == orig,
            decreases rest@.len(),
        {
            let ghost before = out@;
            let ghost before_rest = rest@;
            let t = rest.pop().unwrap();
            out.push(t);
            assert(out@.reverse() =~= seq![t] + before.reverse());
            assert(rest@ + out@.reverse() =~= before_rest + before.reverse());
        }
        assert(out@.reverse() =~= orig);
        TokenQueue { pending: out }
    }

    /// Advances past the next token and returns it, or `None` if the queue
    /// is empty.
    pub fn consume(&mut self) -> (r: Option<GraphQLToken>)
        ensures
            old(self)@.len() == 0 ==> r is None && final(self)@ == old(self)@,
            old(self)@.len() > 0 ==> r == Some(old(self)@[0]) && final(self)@ == old(self)@.drop_first(),
    {
        let r = self.pending.pop();
        proof {
            if old(self)@.len() > 0 {
                lemma_reverse_index(old(self).pending@, 0);
                assert(self@ =~= old(self)@.drop_first());
            }
        }
        r
    }

    /// The number of unconsumed tokens.
    pub fn len(&self) -> (r: usize)
        ensures
            r == self@.len(),
    {
        self.pending.len()
    }

    /// Whether the queue is empty or its next token is `Eof`.
    pub fn is_at_end(&self) -> (r: bool)
        ensures
            r <==> (self@.len() == 0 || self@[0].kind is Eof),
    {
        match self.peek() {
            None => true,
            Some(t) => match t.kind {
                GraphQLTokenKind::Eof => true,
                _ => false,
            },
        }
    }

    /// The next token, if any, without consuming it.
    pub fn peek(&self) -> (r: Option<&GraphQLToken>)
        ensures
            self@.len() == 0 ==> r is None,
            self@.len() > 0 ==> r == Some(&self@[0]),
    {
        self.peek_nth(0)
    }

    /// The `n`-th unconsumed token (`0` is the next one), if there are that
    /// many, without consuming anything.
    pub fn peek_nth(&self, n: usize) -> (r: Option<&GraphQLToken>)
        ensures
            n >= self@.len() ==> r is None,
            n < self@.len() ==> r == Some(&self@[n as int]),
    {
        let len = self.pending.len();
        if n < len {
            proof {
                lemma_reverse_index(self.pending@, n as int);
            }
            Some(&self.pending[len - 1 - n])
        } else {
            None
        }
    }
}

} // verus!
