//! Notification channels in memory.

use status_monitor::domain::WriteSource;
use status_monitor::error::AppError;
use status_monitor::ids::OrgId;
use status_monitor::storage::notification_channels::{
    name_taken, over_cap, ChannelConfig, ChannelKind, ChannelRow,
    InMemoryNotificationChannelStore, NewNotificationChannel, NotificationChannelUpdate,
};
use status_monitor::time::Timestamp;

fn org() -> OrgId {
    OrgId(0xA1)
}

fn other_org() -> OrgId {
    OrgId(0xB2)
}

fn slack(name: &str) -> NewNotificationChannel {
    NewNotificationChannel {
        name: name.into(),
        config: ChannelConfig {
            transport: ChannelKind::Slack,
            settings: r#"{"webhook_url":"https://hooks.slack.com/x"}"#.into(),
        },
        enabled: true,
        external_ref: None,
    }
}

#[test]
fn create_list_get_update_delete_roundtrip() {
    let mut store = InMemoryNotificationChannelStore::new();
    let ch = store.create(org(), slack("ops"), WriteSource::Ui, 10).unwrap();
    assert_eq!(store.list(org()).len(), 1);
    assert_eq!(store.get(org(), ch.id).unwrap().name, "ops");

    let patched = store
        .update(
            org(),
            ch.id,
            NotificationChannelUpdate {
                enabled: Some(false),
                ..Default::default()
            },
            WriteSource::Ui,
        )
        .unwrap()
        .unwrap();
    assert!(!patched.enabled);

    assert!(store.delete(org(), ch.id));
    assert!(store.is_empty());
}

#[test]
fn create_enforces_cap_and_unique_name() {
    let mut store = InMemoryNotificationChannelStore::new();
    store.create(org(), slack("a"), WriteSource::Ui, 1).unwrap();
    let over = store.create(org(), slack("b"), WriteSource::Ui, 1).unwrap_err();
    assert!(matches!(over, AppError::Unprocessable { .. }));
    let dup = store.create(org(), slack("a"), WriteSource::Ui, 10).unwrap_err();
    assert!(matches!(dup, AppError::Unprocessable { .. }));
    assert_eq!(store.len(), 1);
    let codes = |e: AppError| match e {
        AppError::Unprocessable { code, .. } => code,
        _ => panic!("an unprocessable request"),
    };
    assert_eq!(codes(over), codes(over_cap()));
    assert_eq!(codes(dup), codes(name_taken()));
}

#[test]
fn channels_are_isolated_per_org() {
    let mut store = InMemoryNotificationChannelStore::new();
    let a = store.create(org(), slack("ops"), WriteSource::Ui, 10).unwrap();
    // Same name in a different org is allowed and invisible to org A.
    store.create(other_org(), slack("ops"), WriteSource::Ui, 10).unwrap();

    assert_eq!(store.list(org()).len(), 1);
    assert_eq!(store.list(other_org()).len(), 1);
    // org B cannot read, mutate, or delete org A's channel by id.
    assert!(store.get(other_org(), a.id).is_none());
    assert!(store
        .update(
            other_org(),
            a.id,
            NotificationChannelUpdate::default(),
            WriteSource::Ui
        )
        .unwrap()
        .is_none());
    assert!(!store.delete(other_org(), a.id));
    assert!(store.existing_channel_ids(other_org(), &vec![a.id]).is_empty());
    // Still intact for the owning org.
    assert!(store.get(org(), a.id).is_some());
}

#[test]
fn lifecycle_disable_by_external_ref_spans_orgs_and_reenable_clears_note() {
    let mut store = InMemoryNotificationChannelStore::new();
    let linked = |name: &str| NewNotificationChannel {
        name: name.into(),
        config: ChannelConfig {
            transport: ChannelKind::TelegramApp,
            settings: r#"{"chat_id":"-100","chat_title":null}"#.into(),
        },
        enabled: true,
        external_ref: Some("-100".into()),
    };
    // Two orgs linked the same chat; a third channel points elsewhere.
    let a = store.create(org(), linked("prod"), WriteSource::Ui, 10).unwrap();
    store.create(other_org(), linked("ops"), WriteSource::Ui, 10).unwrap();
    let mut other = linked("other-chat");
    other.external_ref = Some("-200".into());
    store.create(org(), other, WriteSource::Ui, 10).unwrap();

    assert_eq!(store.count_by_external_ref(ChannelKind::TelegramApp, "-100"), 2);
    let flipped = store.disable_by_external_ref(ChannelKind::TelegramApp, "-100", "unlinked");
    assert_eq!(flipped, 2, "both orgs' channels for the kicked chat");
    // Idempotent: already-disabled rows don't flip again.
    assert_eq!(
        store.disable_by_external_ref(ChannelKind::TelegramApp, "-100", "unlinked"),
        0
    );
    let got = store.get(org(), a.id).unwrap();
    assert!(!got.enabled);
    assert_eq!(got.disabled_reason.as_deref(), Some("unlinked"));
    // The unrelated chat's channel is untouched.
    assert_eq!(store.list(org()).iter().filter(|c| c.enabled).count(), 1);

    // Re-enabling clears the platform note; disabling again does not
    // resurrect it.
    let re = store
        .update(
            org(),
            a.id,
            NotificationChannelUpdate {
                enabled: Some(true),
                ..Default::default()
            },
            WriteSource::Ui,
        )
        .unwrap()
        .unwrap();
    assert!(re.enabled);
    assert_eq!(re.disabled_reason, None);
}

#[test]
fn a_rename_to_a_taken_name_is_refused() {
    let mut store = InMemoryNotificationChannelStore::new();
    let a = store.create(org(), slack("a"), WriteSource::Ui, 10).unwrap();
    store.create(org(), slack("b"), WriteSource::Ui, 10).unwrap();
    let rename = |name: &str| NotificationChannelUpdate {
        name: Some(name.into()),
        ..Default::default()
    };
    assert!(store.update(org(), a.id, rename("b"), WriteSource::Ui).is_err());
    let same = store.update(org(), a.id, rename("a"), WriteSource::Api).unwrap().unwrap();
    assert_eq!(same.write_source, WriteSource::Api);
}

#[test]
fn only_an_unchanged_email_channel_is_verified() {
    let t = Timestamp::from_secs(1_700_000_000);
    let mut store = InMemoryNotificationChannelStore::new();
    let mut new = slack("mail");
    new.config.transport = ChannelKind::Email;
    store.create_at(org(), new, WriteSource::Ui, 10, t, 1).unwrap();
    store.create_at(org(), slack("chat"), WriteSource::Ui, 10, t, 2).unwrap();
    assert!(!store.set_verified_at(org(), 1, t.plus_secs(1), t.plus_secs(5)));
    assert!(!store.set_verified_at(org(), 2, t, t.plus_secs(5)));
    assert!(!store.set_verified_at(other_org(), 1, t, t.plus_secs(5)));
    assert!(store.set_verified_at(org(), 1, t, t.plus_secs(5)));
    assert_eq!(store.get(org(), 1).unwrap().verified_at, Some(t.plus_secs(5)));
    // A new config has to be verified anew.
    let swap = NotificationChannelUpdate {
        config: Some(ChannelConfig { transport: ChannelKind::Email, settings: "{}".into() }),
        ..Default::default()
    };
    let swapped = store.update_at(org(), 1, swap, WriteSource::Ui, t.plus_secs(9)).unwrap().unwrap();
    assert_eq!(swapped.verified_at, None);
}

#[test]
fn a_channel_row_decodes_with_its_kind() {
    let t = Timestamp::from_secs(0);
    let ch = ChannelRow {
        id: 1,
        name: "n".into(),
        config: ChannelConfig { transport: ChannelKind::Webhook, settings: "{}".into() },
        enabled: false,
        disabled_reason: Some("r".into()),
        verified_at: None,
        write_source: "api".into(),
        created_at: t,
        updated_at: t,
    }
    .into_channel();
    assert_eq!(ch.kind, ChannelKind::Webhook);
    assert_eq!(ch.write_source, WriteSource::Api);
    assert_eq!(ChannelKind::TelegramApp.as_db_str(), "telegram_app");
    assert_eq!(ch.config.kind(), ChannelKind::Webhook);
}
