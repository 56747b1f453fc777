use microclaw::a2a::{
    a2a_audit_actor, a2a_enabled_check, a2a_message_plan, a2a_message_response, a2a_token_allowed,
    A2AConfig, A2AMessageRequest,
};
use microclaw::headers::HeaderFields;
use microclaw::text::{eq_ignoring_ascii_case, header_value_text, is_whitespace, trimmed};
use microclaw::user_id::{extract_user_id, X_CLAWCHAT_USER_ID};

fn headers(pairs: &[(&str, &[u8])]) -> HeaderFields {
    let mut h = HeaderFields::new();
    for (name, value) in pairs {
        h.append(name.to_string(), value.to_vec());
    }
    h
}

fn config(tokens: &[&str]) -> A2AConfig {
    A2AConfig { enabled: true, shared_tokens: tokens.iter().map(|t| t.to_string()).collect() }
}

fn request(message: &str) -> A2AMessageRequest {
    A2AMessageRequest {
        session_key: None,
        sender_name: None,
        source_agent: None,
        source_url: None,
        message: message.to_string(),
    }
}

#[test]
fn header_lookup_ignores_case_and_takes_first() {
    let h = headers(&[("x-clawchat-user-id", b"alice"), ("x-clawchat-user-id", b"bob")]);
    assert_eq!(h.get("X-Clawchat-User-Id").map(|v| v.as_slice()), Some(&b"alice"[..]));
    assert!(h.get("authorization").is_none());
}

#[test]
fn header_text_requires_visible_ascii() {
    assert_eq!(header_value_text(b"ab c\td").as_deref(), Some("ab c\td"));
    assert_eq!(header_value_text(b"caf\xc3\xa9"), None);
    assert_eq!(header_value_text(b"a\nb"), None);
    assert_eq!(header_value_text(b"").as_deref(), Some(""));
}

#[test]
fn trim_uses_unicode_white_space() {
    assert_eq!(trimmed("  a b \t"), "a b");
    assert_eq!(trimmed("\u{3000}x\u{00A0}"), "x");
    assert_eq!(trimmed(" \u{2028} "), "");
    assert_eq!(trimmed("\u{200B}x"), "\u{200B}x");
    assert!(is_whitespace('\u{85}'));
    assert!(!is_whitespace('a'));
}

#[test]
fn ascii_case_comparison() {
    assert!(eq_ignoring_ascii_case("BeArEr", "bearer"));
    assert!(!eq_ignoring_ascii_case("bearer ", "bearer"));
    assert!(!eq_ignoring_ascii_case("bearex", "bearer"));
}

#[test]
fn user_id_accepted_and_trimmed() {
    let h = headers(&[(X_CLAWCHAT_USER_ID, b"  user-alice_01 ")]);
    assert_eq!(extract_user_id(&h), Ok("user-alice_01".to_string()));
}

#[test]
fn user_id_missing_header() {
    let h = headers(&[("authorization", b"Bearer t")]);
    assert_eq!(
        extract_user_id(&h),
        Err((400, "missing_user_header: X-Clawchat-User-Id required on this endpoint".to_string()))
    );
}

#[test]
fn user_id_not_ascii() {
    let h = headers(&[("x-clawchat-user-id", b"\xff")]);
    assert_eq!(
        extract_user_id(&h),
        Err((400, "missing_user_header: header is not ASCII".to_string()))
    );
}

#[test]
fn user_id_empty_value() {
    let h = headers(&[("x-clawchat-user-id", b"  \t ")]);
    assert_eq!(extract_user_id(&h), Err((400, "missing_user_header: empty value".to_string())));
}

#[test]
fn user_id_invalid_shape() {
    let bad = Err((400, "missing_user_header: invalid shape".to_string()));
    assert_eq!(extract_user_id(&headers(&[("x-clawchat-user-id", b"a b")])), bad);
    assert_eq!(extract_user_id(&headers(&[("x-clawchat-user-id", b"alice@x")])), bad);
    let long = "a".repeat(65);
    assert_eq!(extract_user_id(&headers(&[("x-clawchat-user-id", long.as_bytes())])), bad);
    let max = "b".repeat(64);
    assert_eq!(extract_user_id(&headers(&[("x-clawchat-user-id", max.as_bytes())])), Ok(max));
}

#[test]
fn a2a_token_checks() {
    let c = config(&["secret", "other"]);
    assert!(a2a_token_allowed(&c, &headers(&[("authorization", b"Bearer secret")])));
    assert!(a2a_token_allowed(&c, &headers(&[("Authorization", b"  bEaReR   other  ")])));
    assert!(a2a_token_allowed(&c, &headers(&[("authorization", b"bearer\tsecret")])));
    assert!(!a2a_token_allowed(&c, &headers(&[("authorization", b"Bearer wrong")])));
    assert!(!a2a_token_allowed(&c, &headers(&[("authorization", b"Basic secret")])));
    assert!(!a2a_token_allowed(&c, &headers(&[("authorization", b"Bearer")])));
    assert!(!a2a_token_allowed(&c, &headers(&[("authorization", b"Bearer   ")])));
    assert!(!a2a_token_allowed(&c, &headers(&[("authorization", b"secret")])));
    assert!(!a2a_token_allowed(&c, &headers(&[])));
    assert!(!a2a_token_allowed(&c, &headers(&[("authorization", b"Bearer secret\xff")])));
    assert!(!a2a_token_allowed(&config(&[]), &headers(&[("authorization", b"Bearer secret")])));
}

#[test]
fn a2a_disabled_is_not_found() {
    let mut c = config(&["t"]);
    assert!(a2a_enabled_check(&c).is_ok());
    c.enabled = false;
    assert_eq!(a2a_enabled_check(&c), Err((404, "A2A is disabled".to_string())));
    let h = headers(&[("authorization", b"Bearer t")]);
    let r = a2a_message_plan(&c, &h, &request("hi"), "a2a:default".to_string());
    assert_eq!(r.err(), Some((404, "A2A is disabled".to_string())));
}

#[test]
fn a2a_message_refusals() {
    let h = headers(&[("authorization", b"Bearer t")]);
    let r = a2a_message_plan(&config(&[]), &h, &request("hi"), "d".to_string());
    assert_eq!(r.err(), Some((403, "A2A inbound auth is not configured".to_string())));
    let bad = headers(&[("authorization", b"Bearer nope")]);
    let r = a2a_message_plan(&config(&["t"]), &bad, &request("hi"), "d".to_string());
    assert_eq!(r.err(), Some((401, "invalid A2A bearer token".to_string())));
    let r = a2a_message_plan(&config(&["t"]), &h, &request("  \n "), "d".to_string());
    assert_eq!(r.err(), Some((400, "message is required".to_string())));
}

#[test]
fn a2a_message_plan_defaults() {
    let h = headers(&[("authorization", b"Bearer t")]);
    let p = a2a_message_plan(&config(&["t"]), &h, &request("  hello  "), "a2a:main".to_string())
        .ok()
        .unwrap();
    assert_eq!(p.message, "hello");
    assert_eq!(p.session_key, "a2a:main");
    assert_eq!(p.sender_name, "a2a-remote");

    let mut req = request("x");
    req.session_key = Some("  ".to_string());
    req.sender_name = Some(" ".to_string());
    req.source_agent = Some(" peer-bot ".to_string());
    let p = a2a_message_plan(&config(&["t"]), &h, &req, "dflt".to_string()).ok().unwrap();
    assert_eq!(p.session_key, "dflt");
    assert_eq!(p.sender_name, "a2a:peer-bot");

    req.session_key = Some(" s1 ".to_string());
    req.sender_name = Some(" Ann ".to_string());
    let p = a2a_message_plan(&config(&["t"]), &h, &req, "dflt".to_string()).ok().unwrap();
    assert_eq!(p.session_key, "s1");
    assert_eq!(p.sender_name, "Ann");
}

#[test]
fn a2a_reply_fields() {
    let key = "s1".to_string();
    let r = a2a_message_response("1".to_string(), "agent".to_string(), &key, None, None);
    assert!(r.ok);
    assert_eq!(r.response, "");
    assert_eq!(r.session_key, "s1");
    assert_eq!(r.protocol_version, "1");
    assert_eq!(r.agent_name, "agent");
    let r = a2a_message_response(
        "1".to_string(),
        "agent".to_string(),
        &key,
        Some("pong".to_string()),
        Some("s2".to_string()),
    );
    assert_eq!(r.response, "pong");
    assert_eq!(r.session_key, "s2");
    assert_eq!(a2a_audit_actor(&None), "a2a-peer");
    assert_eq!(a2a_audit_actor(&Some("bot".to_string())), "bot");
}

#[test]
fn accepted_user_id_is_accepted_again() {
    let first = extract_user_id(&headers(&[("x-clawchat-user-id", b" \t Bob_7-x  ")])).unwrap();
    let again = extract_user_id(&headers(&[(X_CLAWCHAT_USER_ID, first.as_bytes())])).unwrap();
    assert_eq!(again, first);
}
