use paradise_proxy::error::{Error, Message, BAD_GATEWAY};
use paradise_proxy::startup::{daemon_failure_line, daemon_requested, launch_plan, Launch};

#[test]
fn error_answers_bad_gateway_with_its_text() {
    let e = Error::ReqwestError("error sending request for url (http://x/)".to_string());
    assert_eq!(e.to_string(), "error sending request for url (http://x/)");
    let r = e.into_response();
    assert_eq!(r.status, 502);
    assert_eq!(r.status, BAD_GATEWAY);
    assert_eq!(r.body.err_msg(), "error sending request for url (http://x/)");
}

#[test]
fn message_keeps_its_text() {
    let m = Message::new("boom".to_string());
    assert_eq!(m.err_msg(), "boom");
}

#[test]
fn daemon_only_when_asked_with_true() {
    assert!(daemon_requested(Some("true".to_string())));
    assert!(!daemon_requested(Some("TRUE".to_string())));
    assert!(!daemon_requested(Some("1".to_string())));
    assert!(!daemon_requested(None));
    assert!(matches!(launch_plan(false, Some("true".to_string())), Launch::Daemonize));
    assert!(matches!(launch_plan(true, Some("true".to_string())), Launch::Serve));
    assert!(matches!(launch_plan(false, None), Launch::Serve));
    assert_eq!(daemon_failure_line("no permission"), "Err: no permission");
}
