//! Credentials at rest: sealing, opening, redaction, and org variables.

use serde_json::Value;
use status_monitor::error::AppError;
use status_monitor::ids::OrgId;
use status_monitor::json::{envelope_str, wrap_envelope, Json, Member};
use status_monitor::storage::notification_channels::{open, seal, OpenStep};
use status_monitor::storage::postgres_secrets::{
    decrypt_in_place, encrypt_in_place, redact_credentials, slots_to_open, slots_to_seal, Opened,
    RawTargetRow, RedactedTarget, BASIC_AUTH, BEARER_TOKEN,
};
use status_monitor::storage::variables::{
    is_envelope, open_str, resolve_rows, seal_value, CreateVariableOutcome, InMemoryVariableStore,
    NewVariable, VarRow, Variable, VariableStore,
};
use status_monitor::time::{now, Timestamp};

/// A stand-in for an authenticated cipher: the key's byte is part of the envelope, so the
/// wrong key refuses.
struct Cipher(u8);

impl Cipher {
    fn encrypt(&self, plain: &str) -> Result<String, String> {
        let bytes: Vec<u8> = plain.bytes().map(|b| b ^ self.0).collect();
        Ok(format!("v1:{}:{}", self.0, hex::encode(bytes)))
    }

    fn decrypt(&self, envelope: &str) -> Result<String, String> {
        let prefix = format!("v1:{}:", self.0);
        let body = envelope.strip_prefix(&prefix).ok_or("wrong key")?;
        let bytes = hex::decode(body).map_err(|e| e.to_string())?;
        String::from_utf8(bytes.iter().map(|b| b ^ self.0).collect()).map_err(|e| e.to_string())
    }
}

fn cipher() -> Cipher {
    Cipher(42)
}

fn of_value(v: &Value) -> Json {
    match v {
        Value::Null => Json::Null,
        Value::Bool(b) => Json::Bool(*b),
        Value::Number(n) => Json::Number(n.to_string()),
        Value::String(s) => Json::String(s.clone()),
        Value::Array(a) => Json::Array(a.iter().map(of_value).collect()),
        Value::Object(m) => Json::Object(
            m.iter()
                .map(|(k, v)| Member { key: k.clone(), value: of_value(v) })
                .collect(),
        ),
    }
}

fn to_value(j: &Json) -> Value {
    match j {
        Json::Null => Value::Null,
        Json::Bool(b) => Value::Bool(*b),
        Json::Number(n) => serde_json::from_str(n).unwrap(),
        Json::String(s) => Value::String(s.clone()),
        Json::Array(a) => Value::Array(a.iter().map(to_value).collect()),
        Json::Object(m) => {
            Value::Object(m.iter().map(|m| (m.key.clone(), to_value(&m.value))).collect())
        }
    }
}

fn value(text: &str) -> Value {
    serde_json::from_str(text).unwrap()
}

fn json(text: &str) -> Json {
    of_value(&value(text))
}

/// Seals both slots with a cipher, as the store does.
fn encrypt(check: &mut Json, c: &Cipher) -> Result<(), String> {
    let spec = to_value(check);
    let plain = |key: &str| spec.get(key).map(|v| v.to_string()).unwrap_or_default();
    encrypt_in_place(check, c.encrypt(&plain(BASIC_AUTH)), c.encrypt(&plain(BEARER_TOKEN)))
}

fn opened(c: &Cipher, envelope: Option<String>) -> Opened {
    match envelope {
        None => Opened::Malformed,
        Some(env) => match c.decrypt(&env) {
            Err(e) => Opened::Refused(e),
            Ok(plain) => match serde_json::from_str::<Value>(&plain) {
                Ok(v) => Opened::Value(of_value(&v)),
                Err(_) => Opened::Malformed,
            },
        },
    }
}

fn decrypt(check: &mut Json, c: &Cipher) -> Result<(), String> {
    let (basic, bearer) = slots_to_open(check);
    decrypt_in_place(check, opened(c, basic), opened(c, bearer))
}

#[test]
fn encrypt_then_decrypt_round_trips_basic_auth() {
    let c = cipher();
    let mut v = json(r#"{"type":"http","basic_auth":["alice","s3cret"],"bearer_token":null}"#);
    encrypt(&mut v, &c).unwrap();
    let sealed = to_value(&v);
    let enc = sealed.pointer("/basic_auth/$enc").and_then(Value::as_str);
    assert!(enc.is_some_and(|s| s.starts_with("v1:")));
    decrypt(&mut v, &c).unwrap();
    assert_eq!(to_value(&v)["basic_auth"], value(r#"["alice", "s3cret"]"#));
}

#[test]
fn encrypt_then_decrypt_round_trips_bearer_token() {
    let c = cipher();
    let mut v = json(r#"{"type":"http","basic_auth":null,"bearer_token":"abc.def.ghi"}"#);
    encrypt(&mut v, &c).unwrap();
    assert!(to_value(&v)["bearer_token"]["$enc"].is_string());
    decrypt(&mut v, &c).unwrap();
    assert_eq!(to_value(&v)["bearer_token"], value(r#""abc.def.ghi""#));
}

#[test]
fn both_credentials_and_the_rest_come_back() {
    let c = cipher();
    let text = r#"{"type":"http","bearer_token":"abc","url":"https://x","basic_auth":["a","b"]}"#;
    let mut v = json(text);
    encrypt(&mut v, &c).unwrap();
    assert_ne!(to_value(&v), value(text));
    let mut other = json(&to_value(&v).to_string());
    assert!(decrypt(&mut other, &Cipher(c.0 ^ 1)).is_err());
    decrypt(&mut v, &c).unwrap();
    assert_eq!(to_value(&v), value(text));
}

#[test]
fn legacy_plaintext_passes_through_decrypt() {
    let c = cipher();
    let mut v = json(r#"{"type":"http","basic_auth":["a","b"]}"#);
    decrypt(&mut v, &c).unwrap();
    assert_eq!(to_value(&v)["basic_auth"], value(r#"["a", "b"]"#));
}

#[test]
fn null_credential_skips_encryption() {
    let c = cipher();
    let mut v = json(r#"{"type":"http","basic_auth":null,"bearer_token":null}"#);
    assert_eq!(slots_to_seal(&v), (false, false));
    encrypt(&mut v, &c).unwrap();
    assert!(to_value(&v)["basic_auth"].is_null());
    assert!(to_value(&v)["bearer_token"].is_null());
}

#[test]
fn already_encrypted_does_not_double_wrap() {
    let c = cipher();
    let mut v = json(r#"{"type":"http","basic_auth":["a","b"]}"#);
    encrypt(&mut v, &c).unwrap();
    let first = to_value(&v)["basic_auth"].clone();
    encrypt(&mut v, &c).unwrap();
    assert_eq!(to_value(&v)["basic_auth"], first);
}

#[test]
fn other_fields_untouched_by_encrypt() {
    let c = cipher();
    let mut v = json(
        r#"{"type":"http","url":"https://x.test","method":"GET","headers":{"X":"y"}}"#,
    );
    encrypt(&mut v, &c).unwrap();
    assert_eq!(to_value(&v)["url"], value(r#""https://x.test""#));
    assert_eq!(to_value(&v)["headers"]["X"], value(r#""y""#));
}

#[test]
fn tcp_check_no_credentials_path() {
    let c = cipher();
    let mut v = json(r#"{"type":"tcp","host":"x","port":80}"#);
    encrypt(&mut v, &c).unwrap();
    assert_eq!(to_value(&v)["host"], value(r#""x""#));
}

#[test]
fn redact_replaces_set_credentials_with_sentinel() {
    let mut v =
        json(r#"{"type":"http","basic_auth":["alice","s3cret"],"bearer_token":"abc.def"}"#);
    redact_credentials(&mut v);
    assert_eq!(to_value(&v)["basic_auth"], value(r#""***""#));
    assert_eq!(to_value(&v)["bearer_token"], value(r#""***""#));
    assert_eq!(to_value(&v)["type"], value(r#""http""#));
}

#[test]
fn redact_leaves_unset_credentials_null() {
    let mut v = json(r#"{"type":"http","basic_auth":null,"bearer_token":null}"#);
    redact_credentials(&mut v);
    assert!(to_value(&v)["basic_auth"].is_null());
    assert!(to_value(&v)["bearer_token"].is_null());
}

#[test]
fn redact_covers_encrypted_envelope_without_decrypting() {
    let c = cipher();
    let mut v = json(r#"{"type":"http","basic_auth":["u","p"],"bearer_token":null}"#);
    encrypt(&mut v, &c).unwrap();
    assert!(to_value(&v)["basic_auth"]["$enc"].is_string());
    redact_credentials(&mut v);
    // Envelope object is gone; the sentinel proves a value was set without
    // disclosing the ciphertext.
    assert_eq!(to_value(&v)["basic_auth"], value(r#""***""#));
}

#[test]
fn redacted_target_from_row_clears_credentials() {
    let row = RawTargetRow {
        id: 0,
        name: "t".into(),
        check_spec: json(r#"{"type":"http","basic_auth":["u","p"],"bearer_token":"tok"}"#),
        interval_secs: 60,
        enabled: true,
        tags: vec![],
        group_name: None,
        owner_user_id: None,
        created_at: now(),
        updated_at: now(),
    };
    let rt = RedactedTarget::from_row(row, None);
    assert_eq!(to_value(&rt.check)["basic_auth"], value(r#""***""#));
    assert_eq!(to_value(&rt.check)["bearer_token"], value(r#""***""#));
}

#[test]
fn decrypt_fails_with_wrong_kek() {
    let a = cipher();
    let b = Cipher(99);
    let mut v = json(r#"{"type":"http","basic_auth":["u","p"]}"#);
    encrypt(&mut v, &a).unwrap();
    assert!(decrypt(&mut v, &b).is_err());
}

#[test]
fn a_cipher_that_refuses_leaves_an_error() {
    let mut v = json(r#"{"type":"http","bearer_token":"t"}"#);
    let r = encrypt_in_place(&mut v, Ok("v1:x".into()), Err("no key".into()));
    assert!(r.is_err());
    let mut v = json(r#"{"type":"http","basic_auth":{"$enc":"v1:x"}}"#);
    assert!(decrypt_in_place(&mut v, Opened::Malformed, Opened::Malformed).is_err());
}

#[test]
fn an_envelope_wraps_and_unwraps() {
    let j = wrap_envelope("v1:abc".to_string());
    assert_eq!(to_value(&j), value(r#"{"$enc":"v1:abc"}"#));
    assert_eq!(envelope_str(&j), Some("v1:abc"));
    assert_eq!(envelope_str(&json(r#"{"$enc":7}"#)), None);
    assert_eq!(envelope_str(&Json::Null), None);
    assert!(json(r#"{"a":null}"#).get("a").unwrap().is_null());
    assert_eq!(json(r#"{"a":"b"}"#).get("a").unwrap().as_str(), Some("b"));
}

const WEBHOOK: &str = r#"{"type":"webhook","url":"https://x.test/h","headers":{"X-Tok":"s3cret"}}"#;
const SLACK: &str = r#"{"type":"slack","webhook_url":"https://hooks.slack.com/x"}"#;

fn seal_config(text: &str, c: Option<&Cipher>) -> Json {
    seal(json(text), c.map(|c| c.encrypt(text))).unwrap()
}

#[test]
fn seal_open_round_trips_with_and_without_cipher() {
    // No KEK: plaintext JSON, still opens.
    let v = seal_config(WEBHOOK, None);
    assert!(v.get("$enc").is_none());
    match open(v, false).unwrap() {
        OpenStep::Decode(j) => assert_eq!(to_value(&j), value(WEBHOOK)),
        OpenStep::Decrypt(_) => panic!("nothing was sealed"),
    }

    // KEK: sealed envelope, no plaintext secret on disk, opens back.
    let c = Cipher(5);
    let sealed = seal_config(WEBHOOK, Some(&c));
    assert!(sealed.get("$enc").unwrap().as_str().unwrap().starts_with("v1:"));
    assert!(!to_value(&sealed).to_string().contains("s3cret"));
    match open(sealed, true).unwrap() {
        OpenStep::Decrypt(env) => assert_eq!(value(&c.decrypt(&env).unwrap()), value(WEBHOOK)),
        OpenStep::Decode(_) => panic!("the envelope was passed over"),
    }
}

#[test]
fn sealed_value_without_kek_is_loud_error() {
    let sealed = seal_config(SLACK, Some(&Cipher(6)));
    assert!(open(sealed, false).is_err());
}

#[test]
fn plaintext_value_with_kek_is_loud_error() {
    // A plaintext config written past the store into a deployment with a key.
    let plaintext = seal_config(SLACK, None);
    assert!(open(plaintext, true).is_err());
}

#[test]
fn a_failed_seal_is_an_error() {
    assert!(matches!(seal(json(SLACK), Some(Err("x".into()))), Err(AppError::Other(_))));
}

fn org(n: u128) -> OrgId {
    OrgId(n)
}

fn plain(key: &str, value: &str) -> NewVariable {
    NewVariable {
        key: key.into(),
        is_secret: false,
        value: value.into(),
    }
}

fn secret(key: &str, value: &str) -> NewVariable {
    NewVariable {
        key: key.into(),
        is_secret: true,
        value: value.into(),
    }
}

fn created(o: CreateVariableOutcome) -> Variable {
    match o {
        CreateVariableOutcome::Created(v) => v,
        CreateVariableOutcome::DuplicateKey => panic!("expected Created, got DuplicateKey"),
    }
}

#[test]
fn create_list_get_roundtrip() {
    let mut store = InMemoryVariableStore::new();
    let v = created(store.create(org(1), plain("base_url", "https://x"), None));
    assert_eq!(store.list(org(1)).len(), 1);
    let got = store.get(org(1), v.id).unwrap();
    assert_eq!(got.value.as_deref(), Some("https://x"));
}

#[test]
fn duplicate_key_rejected() {
    let mut store = InMemoryVariableStore::new();
    store.create(org(1), plain("k", "a"), None);
    assert!(matches!(
        store.create(org(1), plain("k", "b"), None),
        CreateVariableOutcome::DuplicateKey
    ));
    // Same key, different org is allowed.
    assert!(matches!(
        store.create(org(2), plain("k", "b"), None),
        CreateVariableOutcome::Created(_)
    ));
}

#[test]
fn secret_value_redacted_in_views_but_resolves() {
    let mut store = InMemoryVariableStore::new();
    let v = created(store.create(org(1), secret("api_key", "sk-123"), None));
    assert!(v.value.is_none());
    assert!(store.get(org(1), v.id).unwrap().value.is_none());
    let map = store.resolve_map(org(1));
    assert_eq!(map.get("api_key").unwrap().value, "sk-123");
    assert!(map.get("api_key").unwrap().is_secret);
}

#[test]
fn update_value_rotates() {
    let mut store = InMemoryVariableStore::new();
    let v = created(store.create(org(1), secret("api_key", "old"), None));
    store.update_value(org(1), v.id, "new", None);
    assert_eq!(store.resolve_map(org(1)).get("api_key").unwrap().value, "new");
}

#[test]
fn every_write_keeps_secrets_out_of_the_view() {
    let mut store = InMemoryVariableStore::new();
    let a = created(store.create(org(1), secret("a", "1"), None));
    let b = created(store.create(org(1), plain("b", "2"), None));
    store.create(org(1), secret("b", "3"), None);
    let rotated = store.update_value(org(1), a.id, "4", None).unwrap();
    assert!(rotated.is_secret);
    assert!(rotated.value.is_none());
    assert!(store.delete(org(1), b.id, None));
    let left = store.list(org(1));
    assert_eq!(left.len(), 1);
    assert_eq!(left[0].key, "a");
    assert!(left[0].value.is_none());
}

#[test]
fn tenant_isolation_on_every_method() {
    let mut store = InMemoryVariableStore::new();
    let v = created(store.create(org(1), plain("k", "a"), None));
    assert!(store.get(org(2), v.id).is_none());
    assert!(store.update_value(org(2), v.id, "x", None).is_none());
    assert!(!store.delete(org(2), v.id, None));
    assert!(store.resolve_map(org(2)).is_empty());
    // The row survived the cross-tenant attempts.
    assert_eq!(store.get(org(1), v.id).unwrap().value.as_deref(), Some("a"));
    assert_eq!(store.usage_count(org(1), "k"), 0);
    assert_eq!(store.usage_counts(org(1)).len(), 1);
}

#[test]
fn seal_open_secret_roundtrip_with_kek() {
    let cipher = Cipher(7);
    let sealed = seal_value("sk-123", true, Some(cipher.encrypt("sk-123"))).unwrap();
    assert!(is_envelope(&sealed));
    let opened = cipher.decrypt(&sealed).ok();
    assert_eq!(open_str(&sealed, Some(opened)).as_deref(), Some("sk-123"));
}

#[test]
fn plaintext_fallback_without_kek() {
    let stored = seal_value("sk-123", true, None).unwrap();
    assert_eq!(stored, "sk-123");
    assert!(!is_envelope(&stored));
    assert_eq!(open_str(&stored, None).as_deref(), Some("sk-123"));
}

#[test]
fn plain_value_never_sealed() {
    let cipher = Cipher(7);
    let stored = seal_value("https://x", false, Some(cipher.encrypt("https://x"))).unwrap();
    assert_eq!(stored, "https://x");
}

#[test]
fn sealed_secret_unopenable_without_kek() {
    let cipher = Cipher(7);
    let sealed = seal_value("sk-123", true, Some(cipher.encrypt("sk-123"))).unwrap();
    assert!(open_str(&sealed, None).is_none());
}

#[test]
fn stored_rows_resolve_where_they_open() {
    let row = |key: &str, value: &str| VarRow {
        id: 1,
        org_id: 2,
        key: key.into(),
        is_secret: true,
        value: value.into(),
        updated_at: Timestamp::from_secs(0),
        updated_by: None,
    };
    let rows = vec![row("a", "v1:x"), row("b", "v1:y")];
    let map = resolve_rows(&rows, &vec![Some("plain".to_string()), None]);
    assert_eq!(map.get("a").unwrap().value, "plain");
    assert!(map.get("b").is_none());
    assert!(row("a", "raw").into_view().value.is_none());
}
