//! The chat bot: webhook secrets, usernames, updates and API addresses.

use serde_json::Value;
use status_monitor::error::AppError;
use status_monitor::telegram::client::{
    endpoint_from, unwrap_envelope, ApiResponse, TelegramClient, API_BASE, REDACTED_BASE,
};
use status_monitor::telegram::update::{
    classify_update, parse_command, Chat, ChatMember, ChatMemberUpdated, ChatRef, Message, Update,
    WebhookAction,
};
use status_monitor::telegram::{
    allowed_updates, is_configured_bot, normalize_username, webhook_secret_matches, webhook_url,
    WEBHOOK_PATH,
};

#[test]
fn secret_match_is_exact() {
    assert!(webhook_secret_matches("s3cret", "s3cret"));
    assert!(!webhook_secret_matches("s3cret", "s3creT"));
    assert!(!webhook_secret_matches("s3cret", "s3cret-extra"));
    assert!(!webhook_secret_matches("", "s3cret"));
}

#[test]
fn username_normalizes_at_and_case() {
    assert_eq!(normalize_username("@UptimePageBot"), "uptimepagebot");
    assert_eq!(normalize_username(" uptimepagebot "), "uptimepagebot");
}

fn text_at(v: &Value, key: &str) -> Option<String> {
    v.get(key).and_then(Value::as_str).map(str::to_owned)
}

fn chat_of(v: &Value) -> Chat {
    Chat {
        id: v["id"].as_i64().expect("chat id"),
        title: text_at(v, "title"),
        first_name: text_at(v, "first_name"),
        username: text_at(v, "username"),
        chat_type: text_at(v, "type"),
    }
}

fn classify(json: &str) -> WebhookAction {
    let v: Value = serde_json::from_str(json).expect("parse update");
    let update = Update {
        message: v.get("message").map(|m| Message {
            text: text_at(m, "text"),
            chat: chat_of(&m["chat"]),
        }),
        my_chat_member: v.get("my_chat_member").map(|m| ChatMemberUpdated {
            chat: chat_of(&m["chat"]),
            new_chat_member: ChatMember {
                status: text_at(&m["new_chat_member"], "status").expect("status"),
            },
        }),
    };
    classify_update(&update)
}

#[test]
fn start_in_private_chat_links_private() {
    let action = classify(
        r#"{"message":{"text":"/start abc123","chat":{"id":42,"type":"private","first_name":"A"}}}"#,
    );
    assert_eq!(
        action,
        WebhookAction::LinkPrivate {
            code: "abc123".into(),
            chat: ChatRef {
                id: 42,
                // Private chats have no title: the person's name stands in so
                // the linked channel isn't anonymous.
                title: Some("A".into())
            },
        }
    );
}

#[test]
fn private_chat_falls_back_to_username_then_nothing() {
    let action = classify(
        r#"{"message":{"text":"/start c","chat":{"id":1,"type":"private","username":"slim"}}}"#,
    );
    assert_eq!(
        action,
        WebhookAction::LinkPrivate {
            code: "c".into(),
            chat: ChatRef {
                id: 1,
                title: Some("slim".into())
            },
        }
    );
    let bare = classify(r#"{"message":{"text":"/start c","chat":{"id":2,"type":"private"}}}"#);
    assert_eq!(
        bare,
        WebhookAction::LinkPrivate {
            code: "c".into(),
            chat: ChatRef { id: 2, title: None },
        }
    );
}

#[test]
fn start_in_group_links_group_with_title() {
    let action = classify(
        r#"{"message":{"text":"/start tok","chat":{"id":-100123,"type":"supergroup","title":"Ops"}}}"#,
    );
    assert_eq!(
        action,
        WebhookAction::LinkGroup {
            code: "tok".into(),
            chat: ChatRef {
                id: -100123,
                title: Some("Ops".into())
            },
        }
    );
}

#[test]
fn link_command_in_group_strips_bot_suffix() {
    let action = classify(
        r#"{"message":{"text":"/link@uptimepagebot tok","chat":{"id":-9,"type":"group","title":"T"}}}"#,
    );
    assert_eq!(
        action,
        WebhookAction::LinkGroup {
            code: "tok".into(),
            chat: ChatRef {
                id: -9,
                title: Some("T".into())
            },
        }
    );
}

#[test]
fn link_command_in_private_chat_links_private() {
    let action = classify(r#"{"message":{"text":"/link tok","chat":{"id":5,"type":"private"}}}"#);
    assert_eq!(
        action,
        WebhookAction::LinkPrivate {
            code: "tok".into(),
            chat: ChatRef { id: 5, title: None },
        }
    );
}

#[test]
fn bare_start_without_code_is_ignored() {
    assert_eq!(
        classify(r#"{"message":{"text":"/start","chat":{"id":1,"type":"private"}}}"#),
        WebhookAction::Ignore
    );
}

#[test]
fn plain_text_is_ignored() {
    assert_eq!(
        classify(r#"{"message":{"text":"hello","chat":{"id":1,"type":"private"}}}"#),
        WebhookAction::Ignore
    );
}

#[test]
fn kicked_member_is_removed() {
    assert_eq!(
        classify(
            r#"{"my_chat_member":{"chat":{"id":-7,"type":"supergroup"},"new_chat_member":{"status":"kicked"}}}"#
        ),
        WebhookAction::Removed { chat_id: -7 }
    );
}

#[test]
fn member_join_alone_is_ignored() {
    // The bot being added carries no code; the `/start` message does.
    assert_eq!(
        classify(
            r#"{"my_chat_member":{"chat":{"id":-7,"type":"supergroup"},"new_chat_member":{"status":"member"}}}"#
        ),
        WebhookAction::Ignore
    );
}

#[test]
fn unrelated_update_parses_and_ignores() {
    assert_eq!(
        classify(r#"{"edited_message":{"foo":1}}"#),
        WebhookAction::Ignore
    );
}

#[test]
fn commands_split_at_the_first_blank() {
    let cmd = |t: &str| parse_command(t);
    assert_eq!(cmd("/start  a b "), Some(("/start".to_string(), "a b".to_string())));
    assert_eq!(cmd("/x@bot"), Some(("/x".to_string(), String::new())));
    assert_eq!(cmd("start a"), None);
    assert_eq!(cmd("\u{2003}/go\tnow"), Some(("/go".to_string(), "now".to_string())));
}

#[test]
fn the_configured_bot_is_told_by_its_name() {
    assert!(is_configured_bot(Some("UptimePageBot"), "@uptimepagebot"));
    assert!(!is_configured_bot(Some("OtherBot"), "@uptimepagebot"));
    assert!(!is_configured_bot(None, "@uptimepagebot"));
    assert_eq!(webhook_url("https://x.test//"), format!("https://x.test{WEBHOOK_PATH}"));
    assert_eq!(allowed_updates(), vec!["message", "my_chat_member"]);
}

#[test]
fn endpoints_are_urls_under_the_bots_base() {
    let c = TelegramClient::new("12:ab");
    assert_eq!(c.endpoint("getMe").unwrap(), format!("{API_BASE}12:ab/getMe"));
    // The URL is normalised on the way.
    assert_eq!(c.endpoint("a b").unwrap(), format!("{API_BASE}12:ab/a%20b"));
    assert!(endpoint_from(None).is_err());
}

#[test]
fn errors_do_not_carry_the_token() {
    let c = TelegramClient::new("12:ab");
    let message = format!("error sending request for {API_BASE}12:ab/getMe");
    match c.scrub(&message) {
        AppError::Other(text) => {
            assert!(!text.contains("12:ab"), "{text}");
            assert!(text.contains(REDACTED_BASE));
        }
        other => panic!("expected Other, got {other:?}"),
    }
}

#[test]
fn a_reply_without_ok_is_an_error() {
    let reply = |ok, result| ApiResponse { ok, result, description: Some("nope".to_string()) };
    assert!(matches!(unwrap_envelope(reply(true, Some(7)), "m"), Ok(7)));
    assert!(matches!(unwrap_envelope(reply(false, Some(7)), "m"), Err(AppError::Other(t))
        if t.contains("nope") && t.contains("m")));
    assert!(unwrap_envelope(reply(true, None), "m").is_err());
}

#[test]
fn a_username_key_ignores_blanks_ats_and_case() {
    for name in ["UptimePageBot", "uptimepagebot", "@@UPTIMEPAGEBOT", "\t@uptimePageBot\n"] {
        assert_eq!(normalize_username(name), "uptimepagebot");
    }
    assert_eq!(normalize_username("@ @x"), " @x");
}
