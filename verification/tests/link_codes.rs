//! Single-use link codes, in both tables.

use chrono::{DateTime, Duration, Utc};
use status_monitor::ids::OrgId;
use status_monitor::storage::channel_link_codes::{
    link_status, InMemoryChannelLinkCodeStore, LinkCode, LinkCodeStatus, LinkPurpose, MintOutcome,
};
use status_monitor::storage::telegram_link_codes;
use status_monitor::storage::telegram_link_codes::InMemoryTelegramLinkCodeStore;
use status_monitor::time::Timestamp;
use uuid::Uuid;

fn org() -> OrgId {
    OrgId(0xA1)
}

fn other_org() -> OrgId {
    OrgId(0xB2)
}

fn ts(t: DateTime<Utc>) -> Timestamp {
    Timestamp::from_parts(t.timestamp(), t.timestamp_subsec_nanos())
}

fn in_15_min() -> Timestamp {
    ts(Utc::now() + Duration::minutes(15))
}

fn a_minute_ago() -> Timestamp {
    ts(Utc::now() - Duration::minutes(1))
}

fn mint(
    store: &mut InMemoryChannelLinkCodeStore,
    org: OrgId,
    purpose: LinkPurpose,
    hash: &str,
) -> LinkCode {
    match store.mint(org, purpose, None, hash, None, None, in_15_min(), 5) {
        MintOutcome::Created(c) => c,
        MintOutcome::LimitReached => panic!("unexpected limit"),
    }
}

#[test]
fn consume_is_single_use_and_purpose_scoped() {
    let mut store = InMemoryChannelLinkCodeStore::new();
    let code = mint(&mut store, org(), LinkPurpose::Telegram, "h1");

    // A delegate consume cannot claim a telegram code.
    assert!(store.consume(LinkPurpose::Delegate, "h1").is_none());
    let first = store
        .consume(LinkPurpose::Telegram, "h1")
        .expect("first claim");
    assert_eq!(first.org_id, org());
    assert_eq!(first.id, code.id);
    assert!(store.consume(LinkPurpose::Telegram, "h1").is_none());
}

#[test]
fn channel_link_codes_expired_code_does_not_consume() {
    let mut store = InMemoryChannelLinkCodeStore::new();
    store.mint(
        org(),
        LinkPurpose::Telegram,
        None,
        "h1",
        None,
        None,
        a_minute_ago(),
        5,
    );
    assert!(store.consume(LinkPurpose::Telegram, "h1").is_none());
}

#[test]
fn channel_link_codes_status_transitions_and_org_scoping() {
    let mut store = InMemoryChannelLinkCodeStore::new();
    let code = mint(&mut store, org(), LinkPurpose::Telegram, "h1");

    assert_eq!(store.status(org(), code.id), Some(LinkCodeStatus::Pending));
    // Another org cannot observe the code at all.
    assert_eq!(store.status(other_org(), code.id), None);

    let consumed = store.consume(LinkPurpose::Telegram, "h1").unwrap();
    // Claimed but the channel never materialised: dead, not pending.
    assert_eq!(store.status(org(), code.id), Some(LinkCodeStatus::Expired));

    let channel_id = Uuid::now_v7().as_u128();
    store.attach_channel(consumed.id, channel_id);
    assert_eq!(
        store.status(org(), code.id),
        Some(LinkCodeStatus::Consumed { channel_id })
    );
}

#[test]
fn mint_caps_outstanding_codes_per_org_and_purpose() {
    let mut store = InMemoryChannelLinkCodeStore::new();
    for i in 0..5 {
        mint(&mut store, org(), LinkPurpose::Telegram, &format!("h{i}"));
    }
    assert!(matches!(
        store.mint(
            org(),
            LinkPurpose::Telegram,
            None,
            "h-over",
            None,
            None,
            in_15_min(),
            5
        ),
        MintOutcome::LimitReached
    ));
    // The cap is per org AND per purpose; consuming a code frees a slot.
    mint(&mut store, other_org(), LinkPurpose::Telegram, "h-other");
    mint(&mut store, org(), LinkPurpose::Delegate, "h-delegate");
    store.consume(LinkPurpose::Telegram, "h0").unwrap();
    mint(&mut store, org(), LinkPurpose::Telegram, "h-freed");
}

#[test]
fn revoked_delegate_neither_peeks_nor_consumes() {
    let mut store = InMemoryChannelLinkCodeStore::new();
    let code = mint(&mut store, org(), LinkPurpose::Delegate, "d1");

    assert!(store.peek(LinkPurpose::Delegate, "d1").is_some());
    assert!(store.revoke(org(), code.id));
    assert!(store.peek(LinkPurpose::Delegate, "d1").is_none());
    assert!(store.consume(LinkPurpose::Delegate, "d1").is_none());
    assert_eq!(store.status(org(), code.id), Some(LinkCodeStatus::Expired));
    // Revoke is single-shot and consumed links can't be revoked.
    assert!(!store.revoke(org(), code.id));
}

#[test]
fn restore_unclaims_a_failed_create() {
    let mut store = InMemoryChannelLinkCodeStore::new();
    let code = mint(&mut store, org(), LinkPurpose::Delegate, "d1");

    let consumed = store.consume(LinkPurpose::Delegate, "d1").unwrap();
    assert!(store.consume(LinkPurpose::Delegate, "d1").is_none());
    store.restore(consumed.id);
    assert_eq!(store.status(org(), code.id), Some(LinkCodeStatus::Pending));
    // A link that already produced a channel cannot be restored.
    let again = store.consume(LinkPurpose::Delegate, "d1").unwrap();
    store.attach_channel(again.id, Uuid::now_v7().as_u128());
    store.restore(again.id);
    assert!(matches!(
        store.status(org(), code.id),
        Some(LinkCodeStatus::Consumed { .. })
    ));
}

#[test]
fn delegate_listing_is_org_scoped_and_newest_first() {
    let mut store = InMemoryChannelLinkCodeStore::new();
    mint(&mut store, org(), LinkPurpose::Delegate, "d1");
    mint(&mut store, org(), LinkPurpose::Delegate, "d2");
    mint(&mut store, org(), LinkPurpose::Telegram, "t1");
    mint(&mut store, other_org(), LinkPurpose::Delegate, "d3");

    let rows = store.list_delegates(org());
    assert_eq!(rows.len(), 2);
    assert!(rows[0].created_at >= rows[1].created_at);
}

#[test]
fn unconsumed_past_expiry_or_revoked_reads_expired() {
    let now = Utc::now();
    let before = ts(now - Duration::seconds(1));
    let after = ts(now + Duration::seconds(1));
    let now = ts(now);
    assert_eq!(
        link_status(None, before, None, None, now),
        LinkCodeStatus::Expired
    );
    assert_eq!(
        link_status(None, after, None, Some(now), now),
        LinkCodeStatus::Expired
    );
    assert_eq!(
        link_status(None, after, None, None, now),
        LinkCodeStatus::Pending
    );
}

#[test]
fn a_code_expires_at_its_instant() {
    let at = Timestamp::from_secs(1_700_000_000);
    let mut store = InMemoryChannelLinkCodeStore::new();
    store.mint_at(org(), LinkPurpose::Whatsapp, "w", Some("ops"), None, at, 1, at.plus_secs(-1), 9);
    assert!(store.peek_at(LinkPurpose::Whatsapp, "w", at.plus_secs(-1)).is_some());
    assert!(store.peek_at(LinkPurpose::Whatsapp, "w", at).is_none());
    assert_eq!(
        store.status_by_hash_at(LinkPurpose::Whatsapp, "w", at),
        Some(LinkCodeStatus::Expired)
    );
    assert!(store.consume_by_id_at(9, at).is_none());
    let link = store.consume_by_id_at(9, at.plus_secs(-1)).unwrap();
    assert_eq!(link.channel_name.as_deref(), Some("ops"));
    assert_eq!(link.kind_hint, None);
}

#[test]
fn an_expired_code_frees_its_slot() {
    let at = Timestamp::from_secs(1_700_000_000);
    let mut store = InMemoryChannelLinkCodeStore::new();
    let purpose = LinkPurpose::Delegate;
    let first = store.mint_at(org(), purpose, "a", None, None, at.plus_secs(60), 1, at, 1);
    assert!(matches!(first, MintOutcome::Created(LinkCode { id: 1, .. })));
    let second = store.mint_at(org(), purpose, "b", None, None, at.plus_secs(60), 1, at, 2);
    assert!(matches!(second, MintOutcome::LimitReached));
    let later = at.plus_secs(61);
    let third = store.mint_at(org(), purpose, "c", None, None, at.plus_secs(90), 1, later, 3);
    assert!(matches!(third, MintOutcome::Created(LinkCode { id: 3, .. })));
    let rows = store.list_delegates_at(org(), later);
    assert_eq!(rows.len(), 1, "the expired code is gone");
    assert_eq!(rows[0].id, 3);
    assert_eq!(rows[0].status, LinkCodeStatus::Pending);
}

#[test]
fn a_claimed_code_is_dead_to_every_purpose() {
    let mut store = InMemoryChannelLinkCodeStore::new();
    mint(&mut store, org(), LinkPurpose::Delegate, "h1");
    let link = store.consume(LinkPurpose::Delegate, "h1").unwrap();
    assert_eq!(store.status(org(), link.id), Some(LinkCodeStatus::Expired));
    for p in LinkPurpose::all() {
        assert!(store.consume(p, "h1").is_none());
    }
    assert!(store.consume_by_id(link.id).is_none());
    assert_eq!(store.status(org(), link.id), Some(LinkCodeStatus::Expired));
}

#[test]
fn purposes_have_their_own_database_names() {
    let names: Vec<&str> = LinkPurpose::all().iter().map(|p| p.as_db_str()).collect();
    assert_eq!(names, vec!["telegram", "delegate", "whatsapp"]);
}

fn mint_telegram(
    store: &mut InMemoryTelegramLinkCodeStore,
    org: OrgId,
    hash: &str,
) -> telegram_link_codes::LinkCode {
    match store.mint(org, None, hash, None, in_15_min(), 5) {
        telegram_link_codes::MintOutcome::Created(c) => c,
        telegram_link_codes::MintOutcome::LimitReached => panic!("unexpected limit"),
    }
}

#[test]
fn consume_is_single_use() {
    let mut store = InMemoryTelegramLinkCodeStore::new();
    let code = mint_telegram(&mut store, org(), "h1");

    let first = store.consume("h1").expect("first claim");
    assert_eq!(first.org_id, org());
    assert_eq!(first.id, code.id);
    assert!(store.consume("h1").is_none());
}

#[test]
fn telegram_link_codes_expired_code_does_not_consume() {
    let mut store = InMemoryTelegramLinkCodeStore::new();
    store.mint(org(), None, "h1", None, a_minute_ago(), 5);
    assert!(store.consume("h1").is_none());
}

#[test]
fn telegram_link_codes_status_transitions_and_org_scoping() {
    let mut store = InMemoryTelegramLinkCodeStore::new();
    let code = mint_telegram(&mut store, org(), "h1");

    assert_eq!(
        store.status(org(), code.id),
        Some(telegram_link_codes::LinkCodeStatus::Pending)
    );
    // Another org cannot observe the code at all.
    assert_eq!(store.status(other_org(), code.id), None);

    let consumed = store.consume("h1").unwrap();
    // Claimed but the channel never materialised: dead, not pending.
    assert_eq!(
        store.status(org(), code.id),
        Some(telegram_link_codes::LinkCodeStatus::Expired)
    );

    let channel_id = Uuid::now_v7().as_u128();
    store.attach_channel(consumed.id, channel_id);
    assert_eq!(
        store.status(org(), code.id),
        Some(telegram_link_codes::LinkCodeStatus::Consumed { channel_id })
    );
}

#[test]
fn mint_caps_outstanding_codes_per_org() {
    let mut store = InMemoryTelegramLinkCodeStore::new();
    for i in 0..5 {
        mint_telegram(&mut store, org(), &format!("h{i}"));
    }
    assert!(matches!(
        store.mint(org(), None, "h-over", None, in_15_min(), 5),
        telegram_link_codes::MintOutcome::LimitReached
    ));
    // The cap is per org, and consuming a code frees a slot.
    mint_telegram(&mut store, other_org(), "h-other");
    store.consume("h0").unwrap();
    mint_telegram(&mut store, org(), "h-freed");
}

#[test]
fn unconsumed_past_expiry_reads_expired() {
    let now = Utc::now();
    let before = ts(now - Duration::seconds(1));
    let after = ts(now + Duration::seconds(1));
    let now = ts(now);
    assert_eq!(
        telegram_link_codes::link_status(None, before, None, now),
        telegram_link_codes::LinkCodeStatus::Expired
    );
    assert_eq!(
        telegram_link_codes::link_status(None, after, None, now),
        telegram_link_codes::LinkCodeStatus::Pending
    );
}
