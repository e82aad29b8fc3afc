use yield_resume::retry::{Admission, Contract, Rejection, Request, Response};
use yield_resume::{Resume, TimedOut, Token};

const T1: Token = [1u8; 32];
const T2: Token = [2u8; 32];

fn s(x: &str) -> String {
    x.to_string()
}

#[test]
fn answered_key_is_served_from_cache() {
    let mut c = Contract::default();
    assert_eq!(c.request(&s("hello")), Ok(Admission::Fresh));
    assert_eq!(c.suspend(T1, s("hello")), Ok(()));
    let resume = c.respond(T1, s("world"));
    assert_eq!(
        resume,
        Some(Resume { token: T1, payload: b"\"world\"".to_vec() })
    );
    assert_eq!(c.request(&s("hello")), Ok(Admission::Existing(s("world"))));
    assert!(c.list_requests().is_empty());
}

#[test]
fn suspended_key_waits_with_one_token() {
    let mut c = Contract::default();
    assert_eq!(c.suspend(T1, s("k")), Ok(()));
    assert_eq!(c.list_requests(), vec![Request { id: T1, prompt: s("k") }]);
    assert_eq!(c.return_existing_response(s("k")), Some(Response::Wait));
    assert_eq!(c.list_requests().len(), 1);
}

#[test]
fn waiting_key_rejects_second_request() {
    let mut c = Contract::default();
    assert_eq!(c.suspend(T1, s("k")), Ok(()));
    assert_eq!(c.request(&s("k")), Err(Rejection::DuplicateInFlight));
    assert_eq!(c.suspend(T2, s("k")), Err(Rejection::DuplicateInFlight));
    assert_eq!(c.list_requests(), vec![Request { id: T1, prompt: s("k") }]);
}

#[test]
fn token_in_use_is_rejected() {
    let mut c = Contract::default();
    assert_eq!(c.suspend(T1, s("a")), Ok(()));
    assert_eq!(c.suspend(T1, s("b")), Err(Rejection::TokenInUse));
    assert_eq!(c.request(&s("b")), Ok(Admission::Fresh));
}

#[test]
fn answered_key_refuses_new_suspension() {
    let mut c = Contract::default();
    assert_eq!(c.suspend(T1, s("a")), Ok(()));
    assert!(c.respond(T1, s("x")).is_some());
    assert_eq!(c.suspend(T2, s("a")), Err(Rejection::AnswerCached));
}

#[test]
fn second_respond_is_a_no_op() {
    let mut c = Contract::default();
    assert_eq!(c.suspend(T1, s("hello")), Ok(()));
    assert!(c.respond(T1, s("world")).is_some());
    assert_eq!(c.respond(T1, s("other")), None);
    assert_eq!(c.request(&s("hello")), Ok(Admission::Existing(s("world"))));
}

#[test]
fn respond_on_unknown_token_changes_nothing() {
    let mut c = Contract::default();
    assert_eq!(c.respond(T2, s("v")), None);
    assert!(c.list_requests().is_empty());
    assert_eq!(c.request(&s("v")), Ok(Admission::Fresh));
}

#[test]
fn timeout_leaves_key_waiting_until_late_answer() {
    let mut c = Contract::default();
    assert_eq!(c.request(&s("x")), Ok(Admission::Fresh));
    assert_eq!(c.suspend(T1, s("x")), Ok(()));
    assert_eq!(c.return_external_response(s("x"), Err(TimedOut)), Response::Wait);
    assert_eq!(c.request(&s("x")), Err(Rejection::DuplicateInFlight));
    assert_eq!(c.list_requests(), vec![Request { id: T1, prompt: s("x") }]);
    assert!(c.respond(T1, s("late")).is_some());
    assert_eq!(c.request(&s("x")), Ok(Admission::Existing(s("late"))));
    assert_eq!(
        c.return_existing_response(s("x")),
        Some(Response::Answer(s("late")))
    );
    assert_eq!(c.request(&s("x")), Ok(Admission::Fresh));
    assert_eq!(c.suspend(T2, s("x")), Ok(()));
    assert_eq!(c.list_requests(), vec![Request { id: T2, prompt: s("x") }]);
}

#[test]
fn delivered_answer_leaves_cache() {
    let mut c = Contract::default();
    assert_eq!(c.suspend(T1, s("hello")), Ok(()));
    assert!(c.respond(T1, s("world")).is_some());
    assert_eq!(
        c.return_external_response(s("hello"), Ok(s("world"))),
        Response::Answer(s("world"))
    );
    assert_eq!(c.request(&s("hello")), Ok(Admission::Fresh));
}

#[test]
fn unrequested_key_has_no_entry() {
    let mut c = Contract::default();
    assert_eq!(c.request(&s("never")), Ok(Admission::Fresh));
    assert_eq!(c.return_existing_response(s("never")), None);
    assert_eq!(c.return_external_response(s("never"), Err(TimedOut)), Response::Wait);
    assert_eq!(c.request(&s("never")), Ok(Admission::Fresh));
}

#[test]
fn listing_is_stable() {
    let mut c = Contract::default();
    assert_eq!(c.suspend(T1, s("a")), Ok(()));
    assert_eq!(c.suspend(T2, s("b")), Ok(()));
    let first = c.list_requests();
    let second = c.list_requests();
    assert_eq!(first, second);
    assert_eq!(
        first,
        vec![
            Request { id: T1, prompt: s("a") },
            Request { id: T2, prompt: s("b") }
        ]
    );
}

#[test]
fn payload_escapes_quotes() {
    let mut c = Contract::default();
    assert_eq!(c.suspend(T1, s("q")), Ok(()));
    let r = c.respond(T1, s("say \"hi\"")).unwrap();
    assert_eq!(r.payload, b"\"say \\\"hi\\\"\"".to_vec());
}
