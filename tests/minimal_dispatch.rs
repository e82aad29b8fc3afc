use yield_resume::basic::{Contract, Request};
use yield_resume::{Resume, TimedOut, Token};

const T1: Token = [7u8; 32];
const T2: Token = [9u8; 32];

#[test]
fn every_request_is_recorded() {
    let mut c = Contract::default();
    c.request(T1, "a".to_string());
    c.request(T2, "a".to_string());
    assert_eq!(
        c.list_requests(),
        vec![
            Request { id: T1, prompt: "a".to_string() },
            Request { id: T2, prompt: "a".to_string() }
        ]
    );
}

#[test]
fn same_token_keeps_its_place() {
    let mut c = Contract::default();
    c.request(T1, "a".to_string());
    c.request(T2, "b".to_string());
    c.request(T1, "c".to_string());
    assert_eq!(
        c.list_requests(),
        vec![
            Request { id: T1, prompt: "c".to_string() },
            Request { id: T2, prompt: "b".to_string() }
        ]
    );
}

#[test]
fn remove_request_forgets_entry() {
    let mut c = Contract::default();
    c.request(T1, "a".to_string());
    c.remove_request(T2);
    assert_eq!(c.list_requests().len(), 1);
    c.remove_request(T1);
    assert!(c.list_requests().is_empty());
}

#[test]
fn respond_encodes_answer() {
    let c = Contract::default();
    assert_eq!(
        c.respond(T1, "world".to_string()),
        Resume { token: T1, payload: b"\"world\"".to_vec() }
    );
}

#[test]
fn minimal_timeout_is_an_error() {
    let c = Contract::default();
    assert_eq!(c.return_external_response(Err(TimedOut)), Err(TimedOut));
    assert_eq!(
        c.return_external_response(Ok("v".to_string())),
        Ok("v".to_string())
    );
}
