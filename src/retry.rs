//! The retry-capable dispatcher: an answer cache deduplicates requests by
//! content key, and a timeout leaves the key waiting for a late answer
//! instead of failing the caller.
use vstd::prelude::*;
use crate::payload::{encode_text, json_text};
use crate::table::{index_of, keys_unique, to_map, Table};
use crate::{Resume, TimedOut, Token};

verus! {

/// What the cache holds for a content key.
pub ghost enum Slot {
    Waiting,
    Answered(Seq<char>),
}

/// The caller-visible result of a continuation.
#[derive(Debug, Clone, PartialEq, Eq)]
pub enum Response {
    /// No answer yet: request the same key again later.
    Wait,
    Answer(String),
}

impl View for Response {
    type V = Slot;

    open spec fn view(&self) -> Slot {
        match self {
            Response::Wait => Slot::Waiting,
            Response::Answer(a) => Slot::Answered(a@),
        }
    }
}

/// An outstanding request as listed: its token and its content key.
#[derive(Debug, Clone, PartialEq, Eq)]
pub struct Request {
    pub id: Token,
    pub prompt: String,
}

/// How a request for a content key is to proceed.
#[derive(Debug, Clone, PartialEq, Eq)]
pub enum Admission {
    /// An answer is cached: it is handed back without a new suspension.
    Existing(String),
    /// The key is unknown: the host suspends the call and reports the
    /// token through `suspend`.
    Fresh,
}

/// Why the dispatcher turned a request down.
#[derive(Debug, PartialEq, Eq, Structural)]
pub enum Rejection {
    /// The key already waits for an answer: try again later.
    DuplicateInFlight,
    /// The key holds an answer, which is to be taken instead.
    AnswerCached,
    /// The token is already bound to an outstanding request.
    TokenInUse,
}

/// The two stores, as maps: token to content key, and content key to slot.
pub ghost struct Model {
    pub ledger: Map<Seq<u8>, Seq<char>>,
    pub cache: Map<Seq<char>, Slot>,
}

/// A request for `k` suspended under token `id`.
pub open spec fn suspend_step(m: Model, id: Seq<u8>, k: Seq<char>) -> Model {
    Model { ledger: m.ledger.insert(id, k), cache: m.cache.insert(k, Slot::Waiting) }
}

/// The responder answered `v` on token `id`; an unknown token changes nothing.
pub open spec fn respond_step(m: Model, id: Seq<u8>, v: Seq<char>) -> Model {
    if m.ledger.contains_key(id) {
        Model { ledger: m.ledger.remove(id), cache: m.cache.insert(m.ledger[id], Slot::Answered(v)) }
    } else {
        m
    }
}

/// The suspension for `k` timed out: a cached key goes back to waiting.
pub open spec fn timeout_step(m: Model, k: Seq<char>) -> Model {
    if m.cache.contains_key(k) {
        Model { ledger: m.ledger, cache: m.cache.insert(k, Slot::Waiting) }
    } else {
        m
    }
}

/// An answer for `k` was delivered or handed back: it leaves the cache.
pub open spec fn consume_step(m: Model, k: Seq<char>) -> Model {
    if m.cache.contains_key(k) && m.cache[k] is Answered {
        Model { ledger: m.ledger, cache: m.cache.remove(k) }
    } else {
        m
    }
}

/// A content key that was never suspended on has no cache entry.
pub proof fn lemma_unrequested_key_uncached(c: &Contract, k: Seq<char>)
    requires
        c.wf(),
        !c.requested().contains(k),
    ensures
        !c.cache().contains_key(k),
{
}

/// An answer on an outstanding token caches that answer for the token's key
/// and retires the token, so that a second answer on the same token changes
/// nothing.
pub proof fn lemma_respond_once(m: Model, id: Seq<u8>, v: Seq<char>, w: Seq<char>)
    ensures
        m.ledger.contains_key(id) ==> respond_step(m, id, v).cache[m.ledger[id]] == Slot::Answered(v)
            && !respond_step(m, id, v).ledger.contains_key(id),
        respond_step(respond_step(m, id, v), id, w) == respond_step(m, id, v),
{
}

/// After a timeout on a waiting key, an answer that arrives late on the
/// key's token is cached for it, and nothing else is in the ledger for it.
pub proof fn lemma_late_answer_after_timeout(c: &Contract, t: Seq<u8>, v: Seq<char>)
    requires
        c.wf(),
        c.ledger().contains_key(t),
    ensures
        timeout_step(c.model(), c.ledger()[t]).cache[c.ledger()[t]] == Slot::Waiting,
        respond_step(timeout_step(c.model(), c.ledger()[t]), t, v).cache[c.ledger()[t]] == Slot::Answered(
            v,
        ),
        forall|t2: Seq<u8>| #[trigger]
            respond_step(timeout_step(c.model(), c.ledger()[t]), t, v).ledger.contains_key(t2) ==> c.ledger()[t2]
                != c.ledger()[t],
{
    let k = c.ledger()[t];
    assert forall|t2: Seq<u8>| #[trigger]
        respond_step(timeout_step(c.model(), k), t, v).ledger.contains_key(t2) implies c.ledger()[t2] != k by {
        assert(c.ledger().contains_key(t2));
        assert(t2 != t);
    }
}

/// The request ledger and the answer cache.
pub struct Contract {
    requests: Table<Token, String>,
    answers: Table<String, Response>,
    requested: Ghost<Set<Seq<char>>>,
}

impl Contract {
    /// The ledger's entries, `(token, content key)`, in order.
    pub closed spec fn pending(&self) -> Seq<(Seq<u8>, Seq<char>)> {
        self.requests@
    }

    /// The cache's entries, `(content key, slot)`, in order.
    pub closed spec fn cached(&self) -> Seq<(Seq<char>, Slot)> {
        self.answers@
    }

    /// Every content key that was ever suspended on.
    pub closed spec fn requested(&self) -> Set<Seq<char>> {
        self.requested@
    }

    pub open spec fn ledger(&self) -> Map<Seq<u8>, Seq<char>> {
        to_map(self.pending())
    }

    pub open spec fn cache(&self) -> Map<Seq<char>, Slot> {
        to_map(self.cached())
    }

    pub open spec fn model(&self) -> Model {
        Model { ledger: self.ledger(), cache: self.cache() }
    }

    /// The tokens that the ledger binds to content key `k`.
    pub open spec fn tokens_for(&self, k: Seq<char>) -> Set<Seq<u8>> {
        self.ledger().dom().filter(|t: Seq<u8>| self.ledger()[t] == k)
    }

    /// Keys are unique in both stores; every outstanding token is bound to a
    /// waiting key, and no key to two tokens; only requested keys are cached.
    pub open spec fn wf(&self) -> bool {
        &&& keys_unique(self.pending())
        &&& keys_unique(self.cached())
        &&& forall|t: Seq<u8>| #[trigger]
            self.ledger().contains_key(t) ==> self.cache().contains_key(self.ledger()[t])
                && self.cache()[self.ledger()[t]] == Slot::Waiting
        &&& forall|t1: Seq<u8>, t2: Seq<u8>|
            self.ledger().contains_key(t1) && self.ledger().contains_key(t2) && #[trigger] self.ledger()[t1]
                == #[trigger] self.ledger()[t2] ==> t1 == t2
        &&& forall|k: Seq<char>| #[trigger] self.cache().contains_key(k) ==> self.requested().contains(k)
    }

    /// How a request for `prompt` proceeds: the cached answer, a fresh
    /// suspension, or a rejection while the key already waits.
    pub fn request(&self, prompt: &String) -> (r: Result<Admission, Rejection>)
        requires
            self.wf(),
        ensures
            !self.cache().contains_key(prompt@) ==> r matches Ok(Admission::Fresh),
            self.cache().contains_key(prompt@) && self.cache()[prompt@] == Slot::Waiting ==> r
                == Err::<Admission, Rejection>(Rejection::DuplicateInFlight),
            forall|v: Seq<char>|
                self.cache().contains_key(prompt@) && self.cache()[prompt@] == Slot::Answered(v) ==> (
                r matches Ok(Admission::Existing(a)) && a@ == v),
    {
        match self.answers.get(prompt) {
            None => Ok(Admission::Fresh),
            Some(Response::Wait) => Err(Rejection::DuplicateInFlight),
            Some(Response::Answer(a)) => Ok(Admission::Existing(a.clone())),
        }
    }

    /// Records that the host suspended the request for `prompt` under the
    /// fresh token `id`; the key then waits for an answer.
    pub fn suspend(&mut self, id: Token, prompt: String) -> (r: Result<(), Rejection>)
        requires
            old(self).wf(),
        ensures
            final(self).wf(),
            old(self).cache().contains_key(prompt@) && old(self).cache()[prompt@] == Slot::Waiting
                ==> r == Err::<(), Rejection>(Rejection::DuplicateInFlight),
            old(self).cache().contains_key(prompt@) && old(self).cache()[prompt@] is Answered ==> r
                == Err::<(), Rejection>(Rejection::AnswerCached),
            !old(self).cache().contains_key(prompt@) && old(self).ledger().contains_key(id@) ==> r
                == Err::<(), Rejection>(Rejection::TokenInUse),
            !old(self).cache().contains_key(prompt@) && !old(self).ledger().contains_key(id@) ==> r
                is Ok,
            r is Err ==> *final(self) == *old(self),
            r is Ok ==> {
                &&& final(self).model() == suspend_step(old(self).model(), id@, prompt@)
                &&& final(self).pending() == old(self).pending().push((id@, prompt@))
                &&& final(self).requested() == old(self).requested().insert(prompt@)
                &&& final(self).tokens_for(prompt@) == set![id@]
            },
    {
        match self.answers.get(&prompt) {
            Some(Response::Wait) => {
                return Err(Rejection::DuplicateInFlight);
            },
            Some(Response::Answer(_)) => {
                return Err(Rejection::AnswerCached);
            },
            None => {},
        }
        if self.requests.find(&id).is_some() {
            return Err(Rejection::TokenInUse);
        }
        let ghost k = prompt@;
        let ghost old_ledger = self.ledger();
        proof {
            assert forall|t: Seq<u8>| #[trigger] old_ledger.contains_key(t) implies old_ledger[t] != k by {}
        }
        self.requests.insert(id, prompt.clone());
        self.answers.insert(prompt, Response::Wait);
        self.requested = Ghost(self.requested@.insert(k));
        proof {
            assert(self.ledger() == old_ledger.insert(id@, k));
            assert forall|t: Seq<u8>| #[trigger] self.ledger().contains_key(t) implies self.cache().contains_key(
                self.ledger()[t],
            ) && self.cache()[self.ledger()[t]] == Slot::Waiting by {
                if t != id@ {
                    assert(old_ledger.contains_key(t));
                }
            }
            assert forall|t1: Seq<u8>, t2: Seq<u8>|
                self.ledger().contains_key(t1) && self.ledger().contains_key(t2) && #[trigger] self.ledger()[t1]
                    == #[trigger] self.ledger()[t2] implies t1 == t2 by {
                if t1 != id@ && t2 != id@ {
                    assert(old_ledger[t1] == old_ledger[t2]);
                } else if t1 != id@ {
                    assert(old_ledger.contains_key(t1));
                } else if t2 != id@ {
                    assert(old_ledger.contains_key(t2));
                }
            }
            assert forall|k2: Seq<char>| #[trigger] self.cache().contains_key(k2) implies self.requested().contains(
                k2,
            ) by {
                if k2 != k {
                    assert(old(self).cache().contains_key(k2));
                }
            }
            assert(self.model() == suspend_step(old(self).model(), id@, k));
            assert(self.tokens_for(k) =~= set![id@]);
        }
        Ok(())
    }

    /// Delivers the responder's `response` for token `request_id`: the key
    /// of that token is answered, the token leaves the ledger, and the host
    /// is to resume its suspension. An unknown token changes nothing.
    pub fn respond(&mut self, request_id: Token, response: String) -> (r: Option<Resume>)
        requires
            old(self).wf(),
        ensures
            final(self).wf(),
            final(self).model() == respond_step(old(self).model(), request_id@, response@),
            final(self).requested() == old(self).requested(),
            old(self).ledger().contains_key(request_id@) ==> {
                &&& r matches Some(x) && x.token@ == request_id@ && x.payload@ == json_text(response@)
                &&& final(self).pending() == old(self).pending().remove(
                    index_of(old(self).pending(), request_id@),
                )
            },
            !old(self).ledger().contains_key(request_id@) ==> r is None && *final(self) == *old(self),
    {
        if self.requests.find(&request_id).is_none() {
            return None;
        }
        let ghost m = self.model();
        match self.requests.remove(&request_id) {
            Some(prompt) => {
                let ghost k = prompt@;
                proof {
                    assert(m.ledger[request_id@] == k);
                }
                self.answers.insert(prompt, Response::Answer(response.clone()));
                proof {
                    assert(self.model() == respond_step(m, request_id@, response@));
                    assert forall|t: Seq<u8>| #[trigger] self.ledger().contains_key(t) implies self.cache().contains_key(
                        self.ledger()[t],
                    ) && self.cache()[self.ledger()[t]] == Slot::Waiting by {
                        assert(m.ledger.contains_key(t));
                        assert(m.ledger[t] != k);
                    }
                    assert forall|t1: Seq<u8>, t2: Seq<u8>|
                        self.ledger().contains_key(t1) && self.ledger().contains_key(t2)
                            && #[trigger] self.ledger()[t1] == #[trigger] self.ledger()[t2] implies t1 == t2 by {
                        assert(m.ledger[t1] == m.ledger[t2]);
                    }
                    assert forall|k2: Seq<char>| #[trigger] self.cache().contains_key(k2) implies self.requested().contains(
                        k2,
                    ) by {
                        assert(m.cache.contains_key(k2));
                    }
                }
                Some(Resume { token: request_id, payload: encode_text(&response) })
            },
            None => None,
        }
    }

    /// Takes the answer cached for `prompt` out of the cache, if it holds
    /// one; a waiting or unknown key is left alone.
    fn take_answer(&mut self, prompt: &String) -> (r: Option<String>)
        requires
            old(self).wf(),
        ensures
            final(self).wf(),
            final(self).model() == consume_step(old(self).model(), prompt@),
            final(self).pending() == old(self).pending(),
            final(self).requested() == old(self).requested(),
            match r {
                Some(a) => old(self).cache().contains_key(prompt@) && old(self).cache()[prompt@]
                    == Slot::Answered(a@),
                None => !(old(self).cache().contains_key(prompt@) && old(self).cache()[prompt@] is Answered),
            },
    {
        let ghost m = self.model();
        let answered = match self.answers.get(prompt) {
            Some(Response::Answer(_)) => true,
            _ => false,
        };
        if !answered {
            return None;
        }
        match self.answers.remove(prompt) {
            Some(Response::Answer(a)) => {
                proof {
                    assert(self.model() == consume_step(m, prompt@));
                    assert forall|t: Seq<u8>| #[trigger] self.ledger().contains_key(t) implies self.cache().contains_key(
                        self.ledger()[t],
                    ) && self.cache()[self.ledger()[t]] == Slot::Waiting by {
                        assert(m.ledger.contains_key(t));
                    }
                    assert forall|k2: Seq<char>| #[trigger] self.cache().contains_key(k2) implies self.requested().contains(
                        k2,
                    ) by {
                        assert(m.cache.contains_key(k2));
                    }
                }
                Some(a)
            },
            _ => None,
        }
    }

    /// The continuation of a suspension for `prompt`. An answer is handed to
    /// the caller and leaves the cache; a timeout puts the key back to
    /// waiting, so that a late answer can still be fetched by a new request.
    pub fn return_external_response(&mut self, prompt: String, response: Result<String, TimedOut>) -> (r:
        Response)
        requires
            old(self).wf(),
        ensures
            final(self).wf(),
            final(self).pending() == old(self).pending(),
            final(self).requested() == old(self).requested(),
            match response {
                Ok(a) => r@ == Slot::Answered(a@) && final(self).model() == consume_step(
                    old(self).model(),
                    prompt@,
                ),
                Err(_) => r@ == Slot::Waiting && final(self).model() == timeout_step(
                    old(self).model(),
                    prompt@,
                ),
            },
    {
        match response {
            Ok(answer) => {
                let _ = self.take_answer(&prompt);
                Response::Answer(answer)
            },
            Err(_) => {
                let ghost m = self.model();
                if self.answers.get(&prompt).is_some() {
                    let ghost k = prompt@;
                    self.answers.insert(prompt, Response::Wait);
                    proof {
                        assert(self.model() == timeout_step(m, k));
                        assert forall|t: Seq<u8>| #[trigger] self.ledger().contains_key(t) implies self.cache().contains_key(
                            self.ledger()[t],
                        ) && self.cache()[self.ledger()[t]] == Slot::Waiting by {
                            assert(m.ledger.contains_key(t));
                        }
                        assert forall|k2: Seq<char>| #[trigger] self.cache().contains_key(k2) implies self.requested().contains(
                            k2,
                        ) by {
                            assert(m.cache.contains_key(k2));
                        }
                    }
                }
                Response::Wait
            },
        }
    }

    /// The continuation that hands back the answer cached for `prompt`,
    /// which then leaves the cache. A key that still waits stays so and
    /// yields `Wait`; an unknown key yields nothing.
    pub fn return_existing_response(&mut self, prompt: String) -> (r: Option<Response>)
        requires
            old(self).wf(),
        ensures
            final(self).wf(),
            final(self).model() == consume_step(old(self).model(), prompt@),
            final(self).pending() == old(self).pending(),
            final(self).requested() == old(self).requested(),
            old(self).cache().contains_key(prompt@) ==> (r matches Some(x) && x@ == old(self).cache()[prompt@]),
            !old(self).cache().contains_key(prompt@) ==> r is None,
    {
        match self.take_answer(&prompt) {
            Some(a) => Some(Response::Answer(a)),
            None => {
                if self.answers.get(&prompt).is_some() {
                    Some(Response::Wait)
                } else {
                    None
                }
            },
        }
    }

    /// The outstanding requests, in order.
    pub fn list_requests(&self) -> (r: Vec<Request>)
        requires
            self.wf(),
        ensures
            r@.len() == self.pending().len(),
            forall|i: int|
                0 <= i < r@.len() ==> (#[trigger] r@[i].id@, r@[i].prompt@) == self.pending()[i],
    {
        let mut out: Vec<Request> = Vec::new();
        let mut i: usize = 0;
        while i < self.requests.len()
            invariant
                0 <= i <= self.pending().len(),
                out@.len() == i,
                forall|j: int|
                    0 <= j < i ==> (#[trigger] out@[j].id@, out@[j].prompt@) == self.pending()[j],
            decreases self.pending().len() - i,
        {
            let e = self.requests.entry(i);
            out.push(Request { id: e.0, prompt: e.1.clone() });
            i = i + 1;
        }
        out
    }
}

impl Default for Contract {
    fn default() -> (r: Self)
        ensures
            r.wf(),
            r.pending() == Seq::<(Seq<u8>, Seq<char>)>::empty(),
            r.cached() == Seq::<(Seq<char>, Slot)>::empty(),
            r.requested() == Set::<Seq<char>>::empty(),
    {
        let r = Contract { requests: Table::new(), answers: Table::new(), requested: Ghost(Set::empty()) };
        proof {
            assert(r.ledger() =~= Map::empty());
            assert(r.cache() =~= Map::empty());
        }
        r
    }
}

} // verus!
