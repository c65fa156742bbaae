//! The cursor over the documents of a query's reply. A reply may come in
//! batches: while the server marks a batch as partial, more can be fetched
//! with the query's token; the last batch ends the cursor.

use vstd::prelude::*;
use std::collections::VecDeque;
use crate::Error;
use crate::query::{DocResult, Response, ResponseType};

verus! {

/// The token of a cursor whose query has no more batches to fetch.
pub const NO_TOKEN: u64 = 0xffff_ffff_ffff_ffff;

/// The documents that a batch hands to the cursor.
pub open spec fn batch_docs<T>(r: Response<T>) -> Seq<DocResult<T>> {
    r.result@
}

/// The token that stays after a batch: the query's own while more batches
/// follow, none after the last.
pub open spec fn token_after<T>(token: u64, r: Response<T>) -> u64 {
    if r.response_type == ResponseType::SuccessPartial {
        token
    } else {
        NO_TOKEN
    }
}

/// Only a partial reply keeps the query's token: after a reply of any other
/// kind the query has no token (all ones), so the cursor fetches no more.
pub proof fn lemma_only_a_partial_reply_keeps_the_token<T>(token: u64, r: Response<T>)
    ensures
        r.response_type == ResponseType::SuccessPartial ==> token_after(token, r) == token,
        r.response_type != ResponseType::SuccessPartial ==> token_after(token, r) == 0xffff_ffff_ffff_ffffu64,
        token_after(token, r) == 0xffff_ffff_ffff_ffffu64 ==> token_after(token, r) == NO_TOKEN,
{
}

/// What the cursor's owner does next.
pub enum CursorStep<T> {
    /// Hand out this document (or the reason it could not be read).
    Yield(Result<T, Error>),
    /// Fetch the next batch of the query with this token.
    Fetch(u64),
    /// The cursor is exhausted.
    Finished,
}

/// The buffered documents of a cursor and the token to fetch more with.
pub struct CursorState<T> {
    pub token: u64,
    pub buffer: VecDeque<DocResult<T>>,
}

/// The documents of a batch, appended in order.
fn append_batch<T>(buffer: &mut VecDeque<DocResult<T>>, docs: Vec<DocResult<T>>)
    ensures
        final(buffer)@ == old(buffer)@ + docs@,
{
    let ghost start = buffer@;
    let ghost all = docs@;
    broadcast use vstd::std_specs::vec::axiom_spec_into_iter;
    for d in it: docs.into_iter()
        invariant
            buffer@ == start + it.seq().take(it.index() as int),
            it.seq() == all,
    {
        buffer.push_back(d);
        assert(it.seq().take(it.index() + 1) =~= it.seq().take(it.index() as int).push(d));
    }
    assert(all.take(all.len() as int) =~= all);
}

impl<T> CursorState<T> {
    /// The cursor for the first batch of the query with this token.
    pub fn from_response(token: u64, response: Response<T>) -> (c: Self)
        ensures
            c.token == token_after(token, response),
            c.buffer@ == batch_docs(response),
            response.response_type == ResponseType::SuccessPartial ==> c.token == token,
            response.response_type != ResponseType::SuccessPartial ==> c.token == NO_TOKEN,
            c.buffer@ == response.result@,
    {
        let next = if response.response_type == ResponseType::SuccessPartial {
            token
        } else {
            NO_TOKEN
        };
        let mut buffer: VecDeque<DocResult<T>> = VecDeque::new();
        append_batch(&mut buffer, response.result);
        CursorState { token: next, buffer }
    }

    /// The next step: the first buffered document leaves the buffer and is
    /// handed out; with none buffered, the next batch is fetched while the
    /// query has more, and otherwise the cursor is exhausted.
    pub fn next_step(&mut self) -> (s: CursorStep<T>)
        ensures
            final(self).token == old(self).token,
            old(self).buffer@.len() > 0 ==> final(self).buffer@ == old(self).buffer@.drop_first()
                && s is Yield && (match old(self).buffer@[0] {
                    DocResult::Value(v) => s->Yield_0 is Ok && s->Yield_0->Ok_0 == v,
                    DocResult::Invalid(m) => s->Yield_0 is Err && s->Yield_0->Err_0 is Deserialize
                        && s->Yield_0->Err_0->Deserialize_0 == m,
                }),
            old(self).buffer@.len() == 0 && old(self).token != NO_TOKEN ==> s == CursorStep::<T>::Fetch(old(self).token)
                && final(self).buffer@ == old(self).buffer@,
            old(self).buffer@.len() == 0 && old(self).token == NO_TOKEN ==> s is Finished
                && final(self).buffer@ == old(self).buffer@,
    {
        match self.buffer.pop_front() {
            Some(doc) => {
                proof { assert(old(self).buffer@.subrange(1, old(self).buffer@.len() as int) =~= old(self).buffer@.drop_first()); }
                CursorStep::Yield(doc.into_result())
            },
            None => {
                if self.token == NO_TOKEN {
                    CursorStep::Finished
                } else {
                    CursorStep::Fetch(self.token)
                }
            },
        }
    }

    /// Takes the next batch: its documents join the buffer, and after the
    /// last batch the query has no token any more.
    pub fn on_response(&mut self, response: Response<T>)
        ensures
            final(self).buffer@ == old(self).buffer@ + batch_docs(response),
            final(self).token == if response.response_type == ResponseType::SuccessPartial {
                old(self).token
            } else {
                NO_TOKEN
            },
    {
        let partial = response.response_type == ResponseType::SuccessPartial;
        append_batch(&mut self.buffer, response.result);
        if !partial {
            self.token = NO_TOKEN;
        }
    }

    /// The token of a query that still has batches on the server, which a
    /// cursor that is dropped stops.
    pub fn stop_token(&self) -> (t: Option<u64>)
        ensures
            self.token != NO_TOKEN ==> t == Some(self.token),
            self.token == NO_TOKEN ==> t is None,
    {
        if self.token != NO_TOKEN {
            Some(self.token)
        } else {
            None
        }
    }
}

} // verus!
