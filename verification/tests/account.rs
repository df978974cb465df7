use agent_platform_desktop::account::{
    callback_response, callback_tokens, check_session, extract_magic_token, number_i64, refusal,
    session_at, session_path, update, verified_tokens, Effect, Message, Session, State,
};
use agent_platform_desktop::json::Json;

fn to_json(v: serde_json::Value) -> Json {
    match v {
        serde_json::Value::Null => Json::Null,
        serde_json::Value::Bool(b) => Json::Bool(b),
        serde_json::Value::Number(n) => Json::Number(n.to_string()),
        serde_json::Value::String(s) => Json::Str(s),
        serde_json::Value::Array(a) => Json::Array(a.into_iter().map(to_json).collect()),
        serde_json::Value::Object(m) => {
            Json::Object(m.into_iter().map(|(k, x)| (k, to_json(x))).collect())
        }
    }
}

fn doc(text: &str) -> Json {
    to_json(serde_json::from_str(text).unwrap())
}

fn session(url: &str, refresh: &str) -> Session {
    Session {
        url: url.into(),
        refresh_token: refresh.into(),
        access_token: "a".into(),
        access_expires_at: 0,
        email: "me@example.com".into(),
        entitlement: String::new(),
        is_admin: false,
    }
}

#[test]
fn extract_accepts_a_raw_hex_token() {
    let t = "aabbccddeeff00112233445566778899";
    assert_eq!(extract_magic_token(t).as_deref(), Some(t));
}

#[test]
fn extract_reads_query_and_hash_links() {
    assert_eq!(
        extract_magic_token("https://api.example.com/accounts/api/v1/auth/verify?token=abc123")
            .as_deref(),
        Some("abc123")
    );
    assert_eq!(
        extract_magic_token("https://api.example.com/accounts/#/verify?token=abc123").as_deref(),
        Some("abc123")
    );
}

#[test]
fn extract_rejects_a_jwt() {
    assert!(extract_magic_token("aaa.bbb.ccc").is_none());
    assert!(extract_magic_token("").is_none());
}

#[test]
fn a_session_file_needs_a_url_and_a_refresh_token() {
    assert!(check_session(session("https://c", "r")).is_some());
    assert!(check_session(session("  ", "r")).is_none());
    assert!(check_session(session("https://c", " ")).is_none());
    let p = session_path("data");
    assert!(p == "data/cloud.session.json" || p == "data\\cloud.session.json", "{p}");
}

#[test]
fn a_sign_in_answer_becomes_a_session() {
    let body = doc(r#"{"user": {"email": "a@b.c", "entitlement": "pro", "is_admin": true}, "expires_in": 60}"#);
    let s = session_at("https://cloud//", &body, "acc".into(), "ref".into(), 1000);
    assert_eq!(s.url, "https://cloud");
    assert_eq!(s.access_expires_at, 1060);
    assert_eq!((s.email.as_str(), s.entitlement.as_str(), s.is_admin), ("a@b.c", "pro", true));

    let flat = doc(r#"{"email": "x@y.z", "expires_in": 1.5}"#);
    let s = session_at("https://cloud", &flat, "a".into(), "r".into(), 10);
    assert_eq!(s.email, "x@y.z", "no user member: the answer is the user");
    assert_eq!(s.access_expires_at, 910, "a lifetime that is not an integer is the default");

    assert_eq!(number_i64("-42"), Some(-42));
    assert_eq!(number_i64("9223372036854775808"), None);
    assert_eq!(number_i64("-9223372036854775808"), Some(i64::MIN));
    assert_eq!(number_i64("1e3"), None);

    assert_eq!(refusal(&doc(r#"{"error": {"message": "nope"}}"#), "fallback"), "nope");
    assert_eq!(refusal(&doc("{}"), "fallback"), "fallback");
    assert_eq!(
        verified_tokens(&doc(r#"{"access_token": "a"}"#)),
        Err("Cloud verify returned no refresh_token.".to_string())
    );
    assert_eq!(
        verified_tokens(&doc(r#"{"access_token": "a", "refresh_token": "r"}"#)),
        Ok(("a".to_string(), "r".to_string()))
    );
}

#[test]
fn the_loopback_callback_takes_both_tokens_or_keeps_listening() {
    let head = "GET /callback?access_token=A1&refresh_token=R1 HTTP/1.1\r\nHost: 127.0.0.1\r\n\r\n";
    assert_eq!(callback_tokens(head), Some(("A1".to_string(), "R1".to_string())));
    assert_eq!(callback_tokens("GET /favicon.ico HTTP/1.1\r\n\r\n"), None);
    let ok = callback_response(true);
    assert!(ok.starts_with("HTTP/1.1 200 OK\r\n"));
    let body = ok.split("\r\n\r\n").nth(1).unwrap();
    assert!(ok.contains(&format!("Content-Length: {}\r\n", body.len())));
    assert!(callback_response(false).starts_with("HTTP/1.1 400 Bad Request\r\n"));
}

#[test]
fn signing_in_walks_through_link_save_and_sign_out() {
    let mut s = State::load(None, "");
    assert!(matches!(update(&mut s, Message::SendLink), Effect::Nothing));
    assert_eq!(s.error.as_deref(), Some("Enter the cloud URL first."));
    update(&mut s, Message::UrlChanged(" https://cloud/ ".into()));
    update(&mut s, Message::EmailChanged("nobody".into()));
    update(&mut s, Message::SendLink);
    assert_eq!(s.error.as_deref(), Some("Enter the email the magic link should reach."));
    update(&mut s, Message::EmailChanged(" me@example.com ".into()));
    match update(&mut s, Message::SendLink) {
        Effect::SendLink { url, email } => {
            assert_eq!(url, "https://cloud");
            assert_eq!(email, "me@example.com");
        }
        other => panic!("{other:?}"),
    }
    assert!(s.busy && s.waiting && s.error.is_none());

    let signed = session("https://cloud", "r");
    assert!(matches!(update(&mut s, Message::SignedIn(Ok(signed.clone()))), Effect::Save(_)));
    assert!(!s.busy && !s.waiting);
    update(&mut s, Message::Saved(Ok(signed)));
    assert!(s.session.is_some());
    assert_eq!(s.email, "me@example.com");

    match update(&mut s, Message::SignOut) {
        Effect::SignOut { url, refresh } => assert_eq!((url.as_str(), refresh.as_str()), ("https://cloud", "r")),
        other => panic!("{other:?}"),
    }
    update(&mut s, Message::SignedOut(Ok(())));
    assert!(s.session.is_none() && !s.busy);

    update(&mut s, Message::PasteChanged("aaa.bbb.ccc".into()));
    update(&mut s, Message::PasteVerify);
    assert_eq!(s.error.as_deref(), Some("Paste the magic link, or the token from it."));
    update(&mut s, Message::Dismiss);
    assert!(s.error.is_none());
    update(&mut s, Message::PasteChanged("https://cloud/#/verify?token=t1".into()));
    match update(&mut s, Message::PasteVerify) {
        Effect::Verify { url, token } => assert_eq!((url.as_str(), token.as_str()), ("https://cloud", "t1")),
        other => panic!("{other:?}"),
    }
}

#[test]
fn the_session_file_sits_in_the_data_folder() {
    assert_eq!(session_path(""), "cloud.session.json");
    assert_eq!(session_path("data/"), "data/cloud.session.json");
    let joined = session_path("data");
    assert!(joined == "data/cloud.session.json" || joined == "data\\cloud.session.json");
}

#[test]
fn typing_a_url_changes_nothing_else() {
    let mut state = State::load(Some(session("https://cloud.example", "r")), "");
    let _ = update(&mut state, Message::UrlChanged("https://other.example".into()));
    assert_eq!(state.url, "https://other.example");
    assert!(state.session.is_some(), "editing a field does not sign anyone out");
    let _ = update(&mut state, Message::EmailChanged("x@y".into()));
    assert!(state.session.is_some());
}
