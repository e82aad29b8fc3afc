//! A dispatcher that numbers its requests: each suspension gets the next
//! request number, and the continuation retires that number whether an
//! answer or a timeout ended it.
use vstd::prelude::*;
use crate::payload::{encode_text, json_text};
use crate::table::{has_key, index_of, keys_unique, lemma_index_of, to_map, Table};
use crate::{Resume, TimedOut, Token};

verus! {

/// An outstanding request: the token of its suspension and its content key.
#[derive(Debug, Clone, PartialEq, Eq)]
pub struct Request {
    pub yield_id: Token,
    pub prompt: String,
}

impl View for Request {
    type V = (Seq<u8>, Seq<char>);

    open spec fn view(&self) -> (Seq<u8>, Seq<char>) {
        (self.yield_id@, self.prompt@)
    }
}

/// The caller-visible result of a continuation.
#[derive(Debug, Clone, PartialEq, Eq)]
pub enum Response {
    Answer(String),
    TimeOutError,
}

/// The last request number handed out, and the outstanding requests by
/// number, in the order they were made.
pub struct Contract {
    request_id: u32,
    requests: Table<u32, Request>,
}

impl Contract {
    /// The last request number handed out (zero before the first).
    pub closed spec fn last_id(&self) -> u32 {
        self.request_id
    }

    /// The ledger's entries, `(number, (token, content key))`, in order.
    pub closed spec fn pending(&self) -> Seq<(u32, (Seq<u8>, Seq<char>))> {
        self.requests@
    }

    pub open spec fn ledger(&self) -> Map<u32, (Seq<u8>, Seq<char>)> {
        to_map(self.pending())
    }

    /// Numbers are unique, and none is above the last one handed out.
    pub open spec fn wf(&self) -> bool {
        &&& keys_unique(self.pending())
        &&& forall|n: u32| #[trigger] self.ledger().contains_key(n) ==> n <= self.last_id()
    }

    /// The number that the next request will get, if numbers are left.
    pub fn next_id(&self) -> (r: Option<u32>)
        ensures
            self.last_id() < u32::MAX ==> r == Some((self.last_id() + 1) as u32),
            self.last_id() == u32::MAX ==> r is None,
    {
        if self.request_id < u32::MAX {
            Some(self.request_id + 1)
        } else {
            None
        }
    }

    /// Records the suspension that the host created for `prompt` under token
    /// `yield_id`, under the next request number, which is returned. When
    /// the numbers are used up nothing changes.
    pub fn request(&mut self, yield_id: Token, prompt: String) -> (r: Option<u32>)
        requires
            old(self).wf(),
        ensures
            final(self).wf(),
            old(self).last_id() == u32::MAX ==> r is None && *final(self) == *old(self),
            old(self).last_id() < u32::MAX ==> {
                &&& r == Some((old(self).last_id() + 1) as u32)
                &&& final(self).last_id() == old(self).last_id() + 1
                &&& final(self).pending() == old(self).pending().push(
                    (final(self).last_id(), (yield_id@, prompt@)),
                )
                &&& final(self).ledger() == old(self).ledger().insert(
                    final(self).last_id(),
                    (yield_id@, prompt@),
                )
            },
    {
        if self.request_id == u32::MAX {
            return None;
        }
        let id = self.request_id + 1;
        proof {
            if has_key(self.pending(), id) {
                let i = index_of(self.pending(), id);
                lemma_index_of(self.pending(), i);
            }
        }
        let ghost old_ledger = self.ledger();
        self.request_id = id;
        self.requests.insert(id, Request { yield_id, prompt });
        proof {
            assert(!has_key(old(self).pending(), id));
            assert forall|n: u32| #[trigger] self.ledger().contains_key(n) implies n <= self.last_id() by {
                if n != id {
                    assert(old_ledger.contains_key(n));
                }
            }
        }
        Some(id)
    }

    /// The resumption that delivers `response` to the suspension of
    /// `yield_id`; the ledger is left as it is.
    pub fn respond(&self, yield_id: Token, response: String) -> (r: Resume)
        ensures
            r.token@ == yield_id@,
            r.payload@ == json_text(response@),
    {
        Resume { token: yield_id, payload: encode_text(&response) }
    }

    /// The continuation of request `request_id`: the request is retired, and
    /// the caller gets the answer or the timeout error.
    pub fn return_external_response(&mut self, request_id: u32, response: Result<String, TimedOut>) -> (r:
        Response)
        requires
            old(self).wf(),
        ensures
            final(self).wf(),
            final(self).last_id() == old(self).last_id(),
            final(self).ledger() == old(self).ledger().remove(request_id),
            match response {
                Ok(a) => r matches Response::Answer(b) && b@ == a@,
                Err(_) => r is TimeOutError,
            },
    {
        let ghost old_ledger = self.ledger();
        let _ = self.requests.remove(&request_id);
        proof {
            assert forall|n: u32| #[trigger] self.ledger().contains_key(n) implies n <= self.last_id() by {
                assert(old_ledger.contains_key(n));
            }
        }
        match response {
            Ok(answer) => Response::Answer(answer),
            Err(_) => Response::TimeOutError,
        }
    }

    /// The outstanding requests, in order.
    pub fn list_requests(&self) -> (r: Vec<Request>)
        requires
            self.wf(),
        ensures
            r@.len() == self.pending().len(),
            forall|i: int| 0 <= i < r@.len() ==> #[trigger] r@[i]@ == self.pending()[i].1,
    {
        let mut out: Vec<Request> = Vec::new();
        let mut i: usize = 0;
        while i < self.requests.len()
            invariant
                0 <= i <= self.pending().len(),
                out@.len() == i,
                forall|j: int| 0 <= j < i ==> #[trigger] out@[j]@ == self.pending()[j].1,
            decreases self.pending().len() - i,
        {
            let e = self.requests.entry(i);
            out.push(Request { yield_id: e.1.yield_id, prompt: e.1.prompt.clone() });
            i = i + 1;
        }
        out
    }
}

impl Default for Contract {
    fn default() -> (r: Self)
        ensures
            r.wf(),
            r.last_id() == 0,
            r.pending() == Seq::<(u32, (Seq<u8>, Seq<char>))>::empty(),
    {
        let r = Contract { request_id: 0, requests: Table::new() };
        assert(r.ledger() =~= Map::empty());
        r
    }
}

} // verus!
