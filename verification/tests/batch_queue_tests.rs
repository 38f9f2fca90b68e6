use xt_core::batch_queue::{is_retriable, retry_decision, RetryDecision};

#[test]
fn retriable_errors() {
    assert!(is_retriable("request timeout"));
    assert!(is_retriable("HTTP 429 Too Many Requests"));
    assert!(is_retriable("502 Bad Gateway"));
    assert!(is_retriable("503"));
    assert!(!is_retriable("401 Unauthorized"));
    assert!(!is_retriable(""));
}

#[test]
fn retry_decisions() {
    match retry_decision(0, Ok("Hallo".to_string())) {
        RetryDecision::Finish(Ok(t)) => assert_eq!(t, "Hallo"),
        other => panic!("unexpected {:?}", other),
    }
    match retry_decision(1, Ok(String::new())) {
        RetryDecision::Finish(Ok(t)) => assert_eq!(t, ""),
        other => panic!("unexpected {:?}", other),
    }
    assert!(matches!(retry_decision(0, Err("timeout".to_string())), RetryDecision::Wait(1)));
    assert!(matches!(retry_decision(1, Err("503".to_string())), RetryDecision::Wait(2)));
    match retry_decision(2, Err("503".to_string())) {
        RetryDecision::Finish(Err(e)) => assert_eq!(e, "503"),
        other => panic!("unexpected {:?}", other),
    }
    match retry_decision(0, Err("bad key".to_string())) {
        RetryDecision::Finish(Err(e)) => assert_eq!(e, "bad key"),
        other => panic!("unexpected {:?}", other),
    }
}
