use microclaw::health::health_root;
use microclaw::sessions::{
    audit_outcome, caller_user_filter, check_fork_target, fork_copies, fork_default_session_key,
    fork_point, fork_target_session_key, history_items, reset_recreates_chat, todo_channel,
    tree_limit, tree_session_key, StoredMessage,
};
use microclaw::headers::HeaderFields;
use microclaw::skills::{
    skill_toggle_check, skill_toggle_response, skills_list_response, DiscoveredSkill,
};
use microclaw::tenant::bootstrap_user_id;

fn msg(i: usize) -> StoredMessage {
    StoredMessage {
        id: format!("m{i}"),
        chat_id: 7,
        sender_name: format!("s{i}"),
        content: format!("c{i}"),
        is_from_bot: i % 2 == 1,
        timestamp: format!("t{i}"),
    }
}

fn is_utc_rfc3339(s: &str) -> bool {
    let b = s.as_bytes();
    let n = b.len();
    let digits = |r: std::ops::Range<usize>| b[r].iter().all(|c| c.is_ascii_digit());
    n >= 25
        && digits(0..4)
        && b[4] == b'-'
        && b[7] == b'-'
        && b[10] == b'T'
        && b[13] == b':'
        && b[16] == b':'
        && digits(17..19)
        && s.ends_with("+00:00")
        && matches!(n - 25, 0 | 4 | 7 | 10)
}

fn is_lower_hex(c: char) -> bool {
    c.is_ascii_digit() || ('a'..='f').contains(&c)
}

#[test]
fn history_tail_limit() {
    let msgs: Vec<StoredMessage> = (0..5).map(msg).collect();
    let all = history_items(&msgs, None);
    assert_eq!(all.len(), 5);
    assert_eq!(all[0].id, "m0");
    assert_eq!(all[4].content, "c4");
    assert!(all[1].is_from_bot);
    let tail = history_items(&msgs, Some(2));
    assert_eq!(tail.iter().map(|h| h.id.as_str()).collect::<Vec<_>>(), vec!["m3", "m4"]);
    assert_eq!(tail[1].timestamp, "t4");
    assert_eq!(history_items(&msgs, Some(5)).len(), 5);
    assert_eq!(history_items(&msgs, Some(9)).len(), 5);
    assert!(history_items(&msgs, Some(0)).is_empty());
}

#[test]
fn user_filter_for_operator_and_user() {
    let mut h = HeaderFields::new();
    assert_eq!(caller_user_filter(true, &h), Ok(None));
    assert_eq!(caller_user_filter(false, &h).err().map(|e| e.0), Some(400));
    h.append("x-clawchat-user-id".to_string(), b"bob".to_vec());
    assert_eq!(caller_user_filter(false, &h), Ok(Some("bob".to_string())));
}

#[test]
fn fork_point_is_capped() {
    assert_eq!(fork_point(None, 4), 4);
    assert_eq!(fork_point(Some(2), 4), 2);
    assert_eq!(fork_point(Some(10), 4), 4);
    assert_eq!(fork_point(Some(0), 4), 0);
}

#[test]
fn fork_target_must_differ() {
    let a = "main".to_string();
    assert_eq!(
        check_fork_target(&a, &"main".to_string()),
        Err((400, "target_session_key must differ from source_session_key".to_string()))
    );
    assert_eq!(check_fork_target(&a, &"other".to_string()), Ok(()));
}

#[test]
fn fork_default_key_shape() {
    let src = "main".to_string();
    let unique = "0123456789abcdef0123456789abcdef".to_string();
    assert_eq!(fork_default_session_key(&src, &unique), "main-fork-01234567");
    assert_eq!(fork_target_session_key(&src, Some("mine".to_string())), "mine");
    let k = fork_target_session_key(&src, None);
    assert!(k.starts_with("main-fork-"));
    let suffix = &k["main-fork-".len()..];
    assert_eq!(suffix.len(), 8);
    assert!(suffix.chars().all(is_lower_hex));
}

#[test]
fn fork_copies_keep_content_with_new_ids() {
    let msgs: Vec<StoredMessage> = (0..4).map(msg).collect();
    let copies = fork_copies(&msgs, 3, 99);
    assert_eq!(copies.len(), 3);
    for (i, c) in copies.iter().enumerate() {
        assert_eq!(c.chat_id, 99);
        assert_eq!(c.sender_name, msgs[i].sender_name);
        assert_eq!(c.content, msgs[i].content);
        assert_eq!(c.is_from_bot, msgs[i].is_from_bot);
        assert_eq!(c.id.len(), 36);
        for (j, ch) in c.id.chars().enumerate() {
            if j == 8 || j == 13 || j == 18 || j == 23 {
                assert_eq!(ch, '-');
            } else {
                assert!(is_lower_hex(ch));
            }
        }
        assert_ne!(c.id, msgs[i].id);
        assert_ne!(c.timestamp, msgs[i].timestamp);
        assert!(is_utc_rfc3339(&c.timestamp), "{}", c.timestamp);
    }
    assert_ne!(copies[0].id, copies[1].id);
    assert!(fork_copies(&msgs, 0, 99).is_empty());
}

#[test]
fn reset_and_delete_decisions() {
    assert!(reset_recreates_chat(&Some("web".to_string())));
    assert!(!reset_recreates_chat(&Some("telegram".to_string())));
    assert!(!reset_recreates_chat(&None));
    assert_eq!(todo_channel(None), "web");
    assert_eq!(todo_channel(Some("discord".to_string())), "discord");
    assert_eq!(audit_outcome(true), "ok");
    assert_eq!(audit_outcome(false), "miss");
}

#[test]
fn session_tree_limits_and_keys() {
    assert_eq!(tree_limit(None), 1000);
    assert_eq!(tree_limit(Some(0)), 1);
    assert_eq!(tree_limit(Some(42)), 42);
    assert_eq!(tree_limit(Some(9000)), 5000);
    assert_eq!(tree_session_key(12, None), "chat:12");
    assert_eq!(tree_session_key(-3, None), "chat:-3");
    assert_eq!(tree_session_key(0, None), "chat:0");
    assert_eq!(tree_session_key(5, Some("main".to_string())), "main");
}

#[test]
fn skills_listing_and_toggles() {
    let skills = vec![
        DiscoveredSkill {
            name: "pdf".to_string(),
            description: "read pdfs".to_string(),
            source: "builtin".to_string(),
            version: Some("1.0".to_string()),
            platforms: vec!["linux".to_string()],
            available: true,
            reason: None,
        },
        DiscoveredSkill {
            name: "mac".to_string(),
            description: "mac only".to_string(),
            source: "user".to_string(),
            version: None,
            platforms: vec!["darwin".to_string()],
            available: false,
            reason: Some("platform".to_string()),
        },
    ];
    let r = skills_list_response(skills);
    assert!(r.ok);
    assert_eq!(r.skills.len(), 2);
    assert_eq!(r.skills[0].name, "pdf");
    assert!(r.skills[0].enabled);
    assert_eq!(r.skills[0].platforms, vec!["linux".to_string()]);
    assert_eq!(r.skills[1].name, "mac");
    assert!(!r.skills[1].enabled);
    assert_eq!(r.skills[1].reason.as_deref(), Some("platform"));
    assert!(skills_list_response(Vec::new()).skills.is_empty());

    assert_eq!(skill_toggle_check(false), Err((404, "Skill not found".to_string())));
    assert_eq!(skill_toggle_check(true), Ok(()));
    let on = skill_toggle_response(true, Ok(())).ok().unwrap();
    assert!(on.ok);
    assert_eq!(on.message, "Skill enabled");
    let off = skill_toggle_response(false, Ok(())).ok().unwrap();
    assert_eq!(off.message, "Skill disabled");
    let err = skill_toggle_response(true, Err("disk full".to_string()));
    assert_eq!(err.err(), Some((500, "disk full".to_string())));
}

#[test]
fn health_snapshot() {
    let h = health_root("0.3.1".to_string(), true);
    assert!(h.ok);
    assert_eq!(h.version, "0.3.1");
    assert!(h.web_enabled);
}

#[test]
fn bootstrap_user_id_from_env_value() {
    assert_eq!(bootstrap_user_id(None), "__pending__");
    assert_eq!(bootstrap_user_id(Some("".to_string())), "__pending__");
    assert_eq!(bootstrap_user_id(Some(" \t\u{3000}".to_string())), "__pending__");
    assert_eq!(bootstrap_user_id(Some(" alice ".to_string())), " alice ");
}
