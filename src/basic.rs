//! The minimal dispatcher: no answer cache, every request suspends, and a
//! timeout is an error for the caller.
use vstd::prelude::*;
use crate::payload::{encode_text, json_text};
use crate::table::{has_key, index_of, keys_unique, to_map, Table};
use crate::{Resume, TimedOut, Token};

verus! {

/// An outstanding request as listed: its token and its content key.
#[derive(Debug, Clone, PartialEq, Eq)]
pub struct Request {
    pub id: Token,
    pub prompt: String,
}

/// The outstanding requests, by token, in the order they were made.
pub struct Contract {
    requests: Table<Token, String>,
}

impl Contract {
    /// The ledger's entries, `(token, content key)`, in order.
    pub closed spec fn pending(&self) -> Seq<(Seq<u8>, Seq<char>)> {
        self.requests@
    }

    /// The ledger as a map from token to content key.
    pub open spec fn ledger(&self) -> Map<Seq<u8>, Seq<char>> {
        to_map(self.pending())
    }

    pub open spec fn wf(&self) -> bool {
        keys_unique(self.pending())
    }

    /// Records the suspension that the host created for `prompt` under the
    /// token `id`.
    pub fn request(&mut self, id: Token, prompt: String)
        requires
            old(self).wf(),
        ensures
            final(self).wf(),
            final(self).ledger() == old(self).ledger().insert(id@, prompt@),
            has_key(old(self).pending(), id@) ==> final(self).pending() == old(self).pending().update(
                index_of(old(self).pending(), id@),
                (id@, prompt@),
            ),
            !has_key(old(self).pending(), id@) ==> final(self).pending() == old(
                self,
            ).pending().push((id@, prompt@)),
    {
        self.requests.insert(id, prompt);
    }

    /// The resumption that delivers `response` to the suspension of
    /// `request_id`; the ledger is left as it is.
    pub fn respond(&self, request_id: Token, response: String) -> (r: Resume)
        ensures
            r.token@ == request_id@,
            r.payload@ == json_text(response@),
    {
        Resume { token: request_id, payload: encode_text(&response) }
    }

    /// The continuation's result: the answer, or the timeout as an error.
    pub fn return_external_response(&self, response: Result<String, TimedOut>) -> (r: Result<
        String,
        TimedOut,
    >)
        ensures
            match response {
                Ok(a) => r is Ok && r->Ok_0@ == a@,
                Err(_) => r is Err,
            },
    {
        match response {
            Ok(answer) => Ok(answer),
            Err(_) => Err(TimedOut),
        }
    }

    /// The outstanding requests, in order.
    pub fn list_requests(&self) -> (r: Vec<Request>)
        requires
            self.wf(),
        ensures
            r@.len() == self.pending().len(),
            forall|i: int|
                0 <= i < r@.len() ==> (#[trigger] r@[i].id@, r@[i].prompt@) == self.pending()[i],
    {
        let mut out: Vec<Request> = Vec::new();
        let mut i: usize = 0;
        while i < self.requests.len()
            invariant
                0 <= i <= self.pending().len(),
                out@.len() == i,
                forall|j: int|
                    0 <= j < i ==> (#[trigger] out@[j].id@, out@[j].prompt@) == self.pending()[j],
            decreases self.pending().len() - i,
        {
            let e = self.requests.entry(i);
            out.push(Request { id: e.0, prompt: e.1.clone() });
            i = i + 1;
        }
        out
    }

    /// Forgets the request of token `id` without resuming anything.
    pub fn remove_request(&mut self, id: Token)
        requires
            old(self).wf(),
        ensures
            final(self).wf(),
            final(self).ledger() == old(self).ledger().remove(id@),
            has_key(old(self).pending(), id@) ==> final(self).pending() == old(self).pending().remove(
                index_of(old(self).pending(), id@),
            ),
            !has_key(old(self).pending(), id@) ==> final(self).pending() == old(self).pending(),
    {
        let _ = self.requests.remove(&id);
    }
}

impl Default for Contract {
    fn default() -> (r: Self)
        ensures
            r.wf(),
            r.pending() == Seq::<(Seq<u8>, Seq<char>)>::empty(),
    {
        Contract { requests: Table::new() }
    }
}

} // verus!
