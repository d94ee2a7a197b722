use kettle::github::{device_flow_disabled, poll_outcome, token_from_output, Poll, CLIENT_ID, SCOPE};

fn is_hex_run_of_40(text: &str) -> bool {
    text.split(|c: char| !c.is_ascii_hexdigit()).any(|w| w.len() == 40)
}

#[test]
fn scope_stays_minimal() {
    assert_eq!(SCOPE, "read:user");
    assert!(!SCOPE.contains("repo"), "must never request repo scope");
    assert!(!SCOPE.contains("write"), "must never request write scope");
}

#[test]
fn no_client_secret_in_the_code() {
    for code in [CLIENT_ID, SCOPE, kettle::infrastructure::github::CLIENT_ID] {
        assert!(!code.contains("client_secret"), "device flow uses no client secret");
        assert!(
            !is_hex_run_of_40(code),
            "a 40-char hex string in this file is almost certainly a leaked secret"
        );
    }
}

#[test]
fn disabled_device_flow_is_recognised() {
    assert!(device_flow_disabled(r#"{"error":"device_flow_disabled"}"#));
    assert!(!device_flow_disabled(r#"{"device_code":"abc"}"#));
}

#[test]
fn poll_replies_are_classified() {
    assert!(matches!(poll_outcome(Some("tok".into()), None), Ok(Poll::Token(t)) if t == "tok"));
    assert!(matches!(poll_outcome(None, Some("authorization_pending".into())), Ok(Poll::Pending)));
    assert!(matches!(poll_outcome(None, Some("slow_down".into())), Ok(Poll::SlowDown(5))));
    assert_eq!(
        poll_outcome(None, Some("expired_token".into())).err(),
        Some("the code expired; start again".to_string())
    );
    assert_eq!(
        poll_outcome(None, Some("access_denied".into())).err(),
        Some("sign-in was declined".to_string())
    );
    assert_eq!(
        poll_outcome(None, Some("unsupported_grant_type".into())).err(),
        Some("unsupported grant type".to_string())
    );
    assert_eq!(
        poll_outcome(None, None).err(),
        Some("GitHub returned neither a token nor an error".to_string())
    );
}

#[test]
fn stored_token_is_trimmed_and_blank_is_none() {
    assert_eq!(token_from_output("gho_abc\n"), Some("gho_abc".to_string()));
    assert_eq!(token_from_output("  \n"), None);
}
