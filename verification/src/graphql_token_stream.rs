//! A stream of tokens with a bounded lookahead buffer, filled on demand
//! from a token source.

use crate::token::GraphQLToken;
use crate::token::GraphQLTokenKind;
use std::collections::VecDeque;
use vstd::prelude::*;

verus! {

/// A stream of tokens pulled from a token source (the lexed tokens of a
/// document, in order): peeking pulls tokens into a lookahead buffer only as
/// far as it looks, and consuming takes them from the front of the buffer.
pub struct GraphQLTokenStream {
    /// The tokens not yet pulled from the source, the next one last.
    source: Vec<GraphQLToken>,
    /// The tokens pulled but not yet consumed, the next one first.
    buffer: VecDeque<GraphQLToken>,
}

impl View for GraphQLTokenStream {
    type V = Seq<GraphQLToken>;

    /// The unconsumed tokens, in order: the buffered ones, then those still
    /// in the source.
    closed spec fn view(&self) -> Seq<GraphQLToken> {
        self.buffer@ + self.source@.reverse()
    }
}

impl GraphQLTokenStream {
    /// The tokens pulled into the lookahead buffer and not yet consumed.
    pub closed spec fn buffered(&self) -> Seq<GraphQLToken> {
        self.buffer@
    }

    /// The buffered tokens are the first unconsumed ones.
    pub proof fn lemma_buffered_prefix(&self)
        ensures
            self.buffered().len() <= self@.len(),
            self.buffered() == self@.subrange(0, self.buffered().len() as int),
    {
        assert(self.buffer@ =~= (self.buffer@ + self.source@.reverse()).subrange(
            0,
            self.buffer@.len() as int,
        ));
    }

    /// Tokens leave the stream in source order, each once, whatever
    /// lookahead comes between: peeking leaves the unconsumed tokens as they
    /// are, so if they are the tokens of `src` from index `k` on before a
    /// `consume` (which returns the first of them and drops it), that
    /// `consume` returns `src[k]` when `k` is in range (`None` otherwise)
    /// and leaves the tokens from `k + 1` on.
    pub proof fn lemma_source_order(
        src: Seq<GraphQLToken>,
        k: int,
        before: GraphQLTokenStream,
        peeked: GraphQLTokenStream,
        r: Option<GraphQLToken>,
        after: GraphQLTokenStream,
    )
        requires
            0 <= k <= src.len(),
            before@ == src.subrange(k, src.len() as int),
            peeked@ == before@,
            peeked@.len() == 0 ==> r is None && after@ == peeked@,
            peeked@.len() > 0 ==> r == Some(peeked@[0]) && after@ == peeked@.drop_first(),
        ensures
            k < src.len() ==> r == Some(src[k]) && after@ == src.subrange(k + 1, src.len() as int),
            k == src.len() ==> r is None && after@.len() == 0,
    {
        if k < src.len() {
            assert(after@ =~= src.subrange(k + 1, src.len() as int));
        }
    }

    /// Creates a stream over the tokens of `source`, with nothing pulled yet.
    pub fn new(source: Vec<GraphQLToken>) -> (s: GraphQLTokenStream)
        ensures
            s@ == source@,
            s.buffered().len() == 0,
    {
        let mut rest = source;
        let ghost orig = rest@;
        let mut reversed: Vec<GraphQLToken> = Vec::new();
        while rest.len() > 0
            invariant
                rest@ + reversed@.reverse() == orig,
            decreases rest@.len(),
        {
            let ghost before = reversed@;
            let ghost before_rest = rest@;
            let t = rest.pop().unwrap();
            reversed.push(t);
            assert(reversed@.reverse() =~= seq![t] + before.reverse());
            assert(rest@ + reversed@.reverse() =~= before_rest + before.reverse());
        }
        let s = GraphQLTokenStream { source: reversed, buffer: VecDeque::new() };
        assert(s@ =~= orig);
        s
    }

    /// Pulls tokens from the source until the buffer holds `count` of them
    /// or the source is exhausted.
    fn ensure_buffer_has(&mut self, count: usize)
        ensures
            final(self)@ == old(self)@,
            final(self).buffered().len() == if old(self).buffered().len() >= count {
                old(self).buffered().len() as int
            } else if count <= old(self)@.len() {
                count as int
            } else {
                old(self)@.len() as int
            },
    {
        while self.buffer.len() < count
            invariant
                self@ == old(self)@,
                old(self).buffered().len() <= self.buffered().len(),
                old(self).buffered().len() < count ==> self.buffered().len() <= count,
                old(self).buffered().len() >= count ==> self.buffered() == old(self).buffered(),
            ensures
                self@ == old(self)@,
                old(self).buffered().len() <= self.buffered().len(),
                old(self).buffered().len() < count ==> self.buffered().len() <= count,
                old(self).buffered().len() >= count ==> self.buffered() == old(self).buffered(),
                self.buffer.len() >= count || self.source@.len() == 0,
            decreases self.source@.len(),
        {
            let ghost before = *self;
            match self.source.pop() {
                Some(token) => {
                    self.buffer.push_back(token);
                    assert(self@ =~= before@) by {
                        assert(before.source@.reverse() =~= seq![token] + self.source@.reverse());
                    }
                },
                None => {
                    assert(self@ =~= self.buffer@);
                    break;
                },
            }
        }
    }

    /// Advances past the next token and returns it, or `None` if the stream
    /// is exhausted.
    pub fn consume(&mut self) -> (r: Option<GraphQLToken>)
        ensures
            old(self)@.len() == 0 ==> r is None && final(self)@ == old(self)@,
            old(self)@.len() > 0 ==> r == Some(old(self)@[0]) && final(self)@ == old(self)@.drop_first(),
            final(self).buffered().len() == if old(self).buffered().len() > 0 {
                old(self).buffered().len() - 1
            } else {
                0
            },
    {
        self.ensure_buffer_has(1);
        let ghost mid = *self;
        let r = self.buffer.pop_front();
        proof {
            if mid@.len() > 0 {
                assert(self@ =~= mid@.drop_first());
            }
        }
        r
    }

    /// The number of tokens currently buffered (pulled and unconsumed).
    pub fn current_buffer_len(&self) -> (r: usize)
        ensures
            r == self.buffered().len(),
    {
        self.buffer.len()
    }

    /// Whether the stream is exhausted or its next token is `Eof`.
    pub fn is_at_end(&mut self) -> (r: bool)
        ensures
            final(self)@ == old(self)@,
            final(self).buffered().len() == if old(self).buffered().len() >= 1 || old(self)@.len() == 0 {
                old(self).buffered().len() as int
            } else {
                1
            },
            r <==> (old(self)@.len() == 0 || old(self)@[0].kind is Eof),
    {
        match self.peek() {
            None => true,
            Some(t) => match t.kind {
                GraphQLTokenKind::Eof => true,
                _ => false,
            },
        }
    }

    /// The next token, if any, without consuming it; pulls it into the
    /// buffer if it is not there yet.
    pub fn peek(&mut self) -> (r: Option<&GraphQLToken>)
        ensures
            final(self)@ == old(self)@,
            final(self).buffered().len() == if old(self).buffered().len() >= 1 || old(self)@.len() == 0 {
                old(self).buffered().len() as int
            } else {
                1
            },
            old(self)@.len() == 0 ==> r is None,
            old(self)@.len() > 0 ==> r == Some(&old(self)@[0]),
    {
        self.peek_nth(0)
    }

    /// The `n`-th unconsumed token (`0` is the next one), if there are that
    /// many, without consuming anything; pulls tokens into the buffer until
    /// it holds `n + 1` of them or the source is exhausted.
    pub fn peek_nth(&mut self, n: usize) -> (r: Option<&GraphQLToken>)
        requires
            n < usize::MAX,
        ensures
            final(self)@ == old(self)@,
            final(self).buffered().len() == if old(self).buffered().len() > n {
                old(self).buffered().len() as int
            } else if n < old(self)@.len() {
                n + 1
            } else {
                old(self)@.len() as int
            },
            n >= old(self)@.len() ==> r is None,
            n < old(self)@.len() ==> r == Some(&old(self)@[n as int]),
    {
        self.ensure_buffer_has(n + 1);
        proof {
            self.lemma_buffered_prefix();
        }
        if n < self.buffer.len() {
            Some(&self.buffer[n])
        } else {
            None
        }
    }
}

} // verus!
