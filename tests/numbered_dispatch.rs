use yield_resume::numbered::{Contract, Request, Response};
use yield_resume::{Resume, TimedOut, Token};

const T1: Token = [3u8; 32];
const T2: Token = [4u8; 32];

#[test]
fn requests_are_numbered_from_one() {
    let mut c = Contract::default();
    assert_eq!(c.next_id(), Some(1));
    assert_eq!(c.request(T1, "a".to_string()), Some(1));
    assert_eq!(c.next_id(), Some(2));
    assert_eq!(c.request(T2, "b".to_string()), Some(2));
    assert_eq!(
        c.list_requests(),
        vec![
            Request { yield_id: T1, prompt: "a".to_string() },
            Request { yield_id: T2, prompt: "b".to_string() }
        ]
    );
}

#[test]
fn continuation_retires_request() {
    let mut c = Contract::default();
    assert_eq!(c.request(T1, "a".to_string()), Some(1));
    assert_eq!(c.request(T2, "b".to_string()), Some(2));
    assert_eq!(
        c.return_external_response(1, Ok("x".to_string())),
        Response::Answer("x".to_string())
    );
    assert_eq!(c.return_external_response(2, Err(TimedOut)), Response::TimeOutError);
    assert!(c.list_requests().is_empty());
    assert_eq!(c.next_id(), Some(3));
}

#[test]
fn numbered_respond_encodes_answer() {
    let c = Contract::default();
    assert_eq!(
        c.respond(T2, "ok".to_string()),
        Resume { token: T2, payload: b"\"ok\"".to_vec() }
    );
}
