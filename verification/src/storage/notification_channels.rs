//! Per-org `notification_channels`. Every method but the operator-side ones is
//! org-scoped, so one tenant can never read or mutate another's channels. The
//! transport settings are sealed at rest as one `{"$enc": …}` envelope.

use vstd::prelude::*;

use crate::collections::{
    count_where, derefs, index_where, is_order, lemma_filter_members, lemma_filter_push,
    lemma_filter_take, lemma_index_where, lemma_index_where_is, lemma_index_where_none,
    lemma_listing, lemma_stable_sorted, position, retain, select_refs, sort_refs, stable_sorted,
};
use crate::domain::WriteSource;
use crate::error::AppError;
use crate::ids::{fresh_id, OrgId};
use crate::json::{envelope_str, envelope_text, law_envelope_round_trip, wrap_envelope, wraps, Json};
use crate::strings::{at_most, lemma_str_le, opt_clone, opt_view, owned, str_eq, str_le};
use crate::time::{now, Timestamp};

verus! {

/// The transport of a channel.
#[derive(Debug, Clone, Copy, PartialEq, Eq, Structural)]
pub enum ChannelKind {
    Email,
    Slack,
    Webhook,
    TelegramApp,
}

impl ChannelKind {
    /// The kind as the database writes it.
    pub open spec fn name(self) -> Seq<char> {
        match self {
            ChannelKind::Email => "email"@,
            ChannelKind::Slack => "slack"@,
            ChannelKind::Webhook => "webhook"@,
            ChannelKind::TelegramApp => "telegram_app"@,
        }
    }

    /// The kind as the database writes it.
    pub fn as_db_str(self) -> (r: &'static str)
        ensures
            r@ == self.name(),
            match self {
                ChannelKind::Email => r@ == "email"@,
                ChannelKind::Slack => r@ == "slack"@,
                ChannelKind::Webhook => r@ == "webhook"@,
                ChannelKind::TelegramApp => r@ == "telegram_app"@,
            },
    {
        match self {
            ChannelKind::Email => "email",
            ChannelKind::Slack => "slack",
            ChannelKind::Webhook => "webhook",
            ChannelKind::TelegramApp => "telegram_app",
        }
    }
}

/// A channel's transport and its settings, the latter as JSON text.
#[derive(Debug)]
pub struct ChannelConfig {
    pub transport: ChannelKind,
    pub settings: String,
}

impl Clone for ChannelConfig {
    fn clone(&self) -> (r: Self)
        ensures
            r == *self,
    {
        ChannelConfig { transport: self.transport, settings: self.settings.clone() }
    }
}

impl ChannelConfig {
    /// The transport the settings are for.
    pub fn kind(&self) -> (r: ChannelKind)
        ensures
            r == self.transport,
    {
        self.transport
    }
}

/// A channel to be made.
#[derive(Debug)]
pub struct NewNotificationChannel {
    pub name: String,
    pub config: ChannelConfig,
    pub enabled: bool,
    pub external_ref: Option<String>,
}

/// A change of a channel: what is `None` stays as it is.
#[derive(Debug)]
pub struct NotificationChannelUpdate {
    pub name: Option<String>,
    pub config: Option<ChannelConfig>,
    pub enabled: Option<bool>,
}

impl Default for NotificationChannelUpdate {
    fn default() -> (r: Self)
        ensures
            r.name is None,
            r.config is None,
            r.enabled is None,
    {
        NotificationChannelUpdate { name: None, config: None, enabled: None }
    }
}

/// A channel.
#[derive(Debug)]
pub struct NotificationChannel {
    pub id: u128,
    pub name: String,
    pub kind: ChannelKind,
    pub config: ChannelConfig,
    pub enabled: bool,
    pub disabled_reason: Option<String>,
    pub verified_at: Option<Timestamp>,
    pub write_source: WriteSource,
    pub created_at: Timestamp,
    pub updated_at: Timestamp,
}

impl Clone for NotificationChannel {
    fn clone(&self) -> (r: Self)
        ensures
            r == *self,
    {
        NotificationChannel {
            id: self.id,
            name: self.name.clone(),
            kind: self.kind,
            config: self.config.clone(),
            enabled: self.enabled,
            disabled_reason: opt_clone(&self.disabled_reason),
            verified_at: self.verified_at,
            write_source: self.write_source,
            created_at: self.created_at,
            updated_at: self.updated_at,
        }
    }
}

/// `v` is what is stored for a config, where the cipher made `env` of it: the framed
/// envelope, or the config itself where there is no cipher.
pub open spec fn stored_config(plain: Json, v: Json, env: Option<Seq<char>>) -> bool {
    match env {
        None => v == plain,
        Some(e) => v is Object && wraps(v, e),
    }
}

/// Seals a config for storage. `sealed` is what the cipher made of the config's
/// JSON, or `None` where no key-encryption key is configured: then the JSON is
/// stored as it is.
pub fn seal(plain: Json, sealed: Option<Result<String, String>>) -> (r: Result<Json, AppError>)
    ensures
        sealed is None ==> (r matches Ok(v) && stored_config(plain, v, None)),
        sealed matches Some(Ok(env)) ==> (r matches Ok(v) && stored_config(plain, v, Some(env@))),
        sealed matches Some(Err(why)) ==> (r matches Err(AppError::Other(m)) && m@
            == "seal channel config: "@ + why@),
{
    match sealed {
        None => Ok(plain),
        Some(Ok(env)) => Ok(wrap_envelope(env)),
        Some(Err(why)) => {
            let mut m = owned("seal channel config: ");
            m.append(why.as_str());
            Err(AppError::Other(m))
        },
    }
}

/// How a stored config is read.
#[derive(Debug)]
pub enum OpenStep {
    /// Open this sealed text, then decode it.
    Decrypt(String),
    /// Decode the value as it is.
    Decode(Json),
}

/// What reading a stored config comes to. Both mode mismatches, a sealed row without a
/// key-encryption key and a plaintext row with one, are errors.
pub open spec fn reads_as(value: Json, has_key: bool, r: Result<OpenStep, AppError>) -> bool {
    match (has_key, envelope_text(value)) {
        (true, Some(env)) => r matches Ok(OpenStep::Decrypt(s)) && s@ == env,
        (false, None) => r == Ok::<OpenStep, AppError>(OpenStep::Decode(value)),
        (false, Some(_)) => r matches Err(AppError::Other(m)) && m@
            == "notification channel is sealed but no credentials KEK is configured"@,
        (true, None) => r matches Err(AppError::Other(m)) && m@
            == "notification channel is plaintext but a credentials KEK is configured — write path mismatch"@,
    }
}

/// Inverse of [`seal`]: how to read a stored config. Both mode mismatches, a sealed
/// row without a key-encryption key and a plaintext row with one, are loud errors.
pub fn open(value: Json, has_key: bool) -> (r: Result<OpenStep, AppError>)
    ensures
        reads_as(value, has_key, r),
{
    let env = match envelope_str(&value) {
        Some(s) => Some(owned(s)),
        None => None,
    };
    match env {
        Some(s) => {
            if has_key {
                Ok(OpenStep::Decrypt(s))
            } else {
                Err(
                    AppError::other(
                        "notification channel is sealed but no credentials KEK is configured",
                    ),
                )
            }
        },
        None => {
            if has_key {
                Err(
                    AppError::other(
                        "notification channel is plaintext but a credentials KEK is configured — write path mismatch",
                    ),
                )
            } else {
                Ok(OpenStep::Decode(value))
            }
        },
    }
}

/// The config that a step reads, where `opens` is what decrypting and decoding gives.
pub open spec fn config_of(step: OpenStep, opens: spec_fn(Seq<char>) -> Option<Json>) -> Option<
    Json,
> {
    match step {
        OpenStep::Decrypt(s) => opens(s@),
        OpenStep::Decode(v) => Some(v),
    }
}

/// Opening inverts sealing: in the mode it was stored in, a config reads back as it was,
/// given a cipher that gives back what it encrypted. In the other mode it is an error,
/// whichever the two are. A config in the clear must not look like an envelope itself.
pub proof fn law_open_inverts_seal(
    plain: Json,
    env: Option<Seq<char>>,
    stored: Json,
    opens: spec_fn(Seq<char>) -> Option<Json>,
    same_mode: Result<OpenStep, AppError>,
    other_mode: Result<OpenStep, AppError>,
)
    requires
        stored_config(plain, stored, env),
        env is None ==> envelope_text(plain) is None,
        env matches Some(e) ==> opens(e) == Some(plain),
        reads_as(stored, env is Some, same_mode),
        reads_as(stored, env is None, other_mode),
    ensures
        same_mode matches Ok(step) && config_of(step, opens) == Some(plain),
        other_mode is Err,
{
    if let Some(e) = env {
        law_envelope_round_trip(stored, e);
    }
}

/// The error where a name is taken.
pub open spec fn is_name_taken(e: AppError) -> bool {
    e.is_unprocessable(
        "CHANNEL_NAME_TAKEN"@,
        "a notification channel with this name already exists"@,
    )
}

/// The error where the plan's limit is reached.
pub open spec fn is_over_cap(e: AppError) -> bool {
    e.is_unprocessable(
        "CHANNEL_QUOTA_EXCEEDED"@,
        "notification channel limit reached for this plan"@,
    )
}

/// The error where a name is taken.
pub fn name_taken() -> (e: AppError)
    ensures
        is_name_taken(e),
{
    AppError::unprocessable(
        "CHANNEL_NAME_TAKEN",
        "a notification channel with this name already exists",
    )
}

/// The error where the plan's limit is reached.
pub fn over_cap() -> (e: AppError)
    ensures
        is_over_cap(e),
{
    AppError::unprocessable(
        "CHANNEL_QUOTA_EXCEEDED",
        "notification channel limit reached for this plan",
    )
}

/// A stored channel with its org and the reference that its transport knows it by.
#[derive(Debug)]
pub struct ChannelEntry {
    pub org: OrgId,
    pub external_ref: Option<String>,
    pub ch: NotificationChannel,
}

/// A channel as a row of the database, its config opened.
#[derive(Debug)]
pub struct ChannelRow {
    pub id: u128,
    pub name: String,
    pub config: ChannelConfig,
    pub enabled: bool,
    pub disabled_reason: Option<String>,
    pub verified_at: Option<Timestamp>,
    pub write_source: String,
    pub created_at: Timestamp,
    pub updated_at: Timestamp,
}

impl ChannelRow {
    /// The channel of a row. The opened config is the single source of truth for the
    /// kind.
    pub fn into_channel(self) -> (r: NotificationChannel)
        ensures
            r == (NotificationChannel {
                id: self.id,
                name: self.name,
                kind: self.config.transport,
                config: self.config,
                enabled: self.enabled,
                disabled_reason: self.disabled_reason,
                verified_at: self.verified_at,
                write_source: WriteSource::of_name(self.write_source@),
                created_at: self.created_at,
                updated_at: self.updated_at,
            }),
    {
        let write_source = WriteSource::from_db(self.write_source.as_str());
        NotificationChannel {
            id: self.id,
            name: self.name,
            kind: self.config.kind(),
            config: self.config,
            enabled: self.enabled,
            disabled_reason: self.disabled_reason,
            verified_at: self.verified_at,
            write_source,
            created_at: self.created_at,
            updated_at: self.updated_at,
        }
    }
}

/// The channel is the org's.
pub open spec fn of_org(org: OrgId) -> spec_fn(ChannelEntry) -> bool {
    |e: ChannelEntry| e.org == org
}

/// The channel is the org's with this id.
pub open spec fn of_id(org: OrgId, id: u128) -> spec_fn(ChannelEntry) -> bool {
    |e: ChannelEntry| e.org == org && e.ch.id == id
}

/// The channel is the org's with this name.
pub open spec fn of_name(org: OrgId, name: Seq<char>) -> spec_fn(ChannelEntry) -> bool {
    |e: ChannelEntry| e.org == org && e.ch.name@ == name
}

/// The channel is another one of the org's with this name.
pub open spec fn clashes(org: OrgId, id: u128, name: Seq<char>) -> spec_fn(ChannelEntry) -> bool {
    |e: ChannelEntry| e.org == org && e.ch.id != id && e.ch.name@ == name
}

/// The channel carries this reference.
pub open spec fn linked(kind: ChannelKind, external_ref: Seq<char>) -> spec_fn(
    ChannelEntry,
) -> bool {
    |e: ChannelEntry| e.ch.kind == kind && opt_view(e.external_ref) == Some(external_ref)
}

/// The channel carries this reference and is enabled.
pub open spec fn live_link(kind: ChannelKind, external_ref: Seq<char>) -> spec_fn(
    ChannelEntry,
) -> bool {
    |e: ChannelEntry| linked(kind, external_ref)(e) && e.ch.enabled
}

/// The channel is the org's email channel with this id, untouched since.
pub open spec fn verifiable(org: OrgId, id: u128, expected: Timestamp) -> spec_fn(
    ChannelEntry,
) -> bool {
    |e: ChannelEntry|
        e.org == org && e.ch.id == id && e.ch.kind == ChannelKind::Email && e.ch.updated_at
            == expected
}

/// Order by name.
pub open spec fn name_order() -> spec_fn(ChannelEntry, ChannelEntry) -> bool {
    |a: ChannelEntry, b: ChannelEntry| str_le(a.ch.name@, b.ch.name@)
}

/// What creating a channel does and returns.
pub open spec fn created(
    before: Seq<ChannelEntry>,
    after: Seq<ChannelEntry>,
    r: Result<NotificationChannel, AppError>,
    org: OrgId,
    new: NewNotificationChannel,
    source: WriteSource,
    max_channels: i64,
    now: Timestamp,
    id: u128,
) -> bool {
    if index_where(before, of_name(org, new.name@)) is Some {
        after == before && (r matches Err(e) && is_name_taken(e))
    } else if before.filter(of_org(org)).len() >= max_channels {
        after == before && (r matches Err(e) && is_over_cap(e))
    } else {
        let ch = NotificationChannel {
            id,
            name: new.name,
            kind: new.config.transport,
            config: new.config,
            enabled: new.enabled,
            disabled_reason: None,
            verified_at: None,
            write_source: source,
            created_at: now,
            updated_at: now,
        };
        r == Ok::<NotificationChannel, AppError>(ch) && after == before.push(
            ChannelEntry { org, external_ref: new.external_ref, ch },
        )
    }
}

/// A channel after a change.
pub open spec fn patched(
    ch: NotificationChannel,
    update: NotificationChannelUpdate,
    source: WriteSource,
    now: Timestamp,
) -> NotificationChannel {
    NotificationChannel {
        id: ch.id,
        name: match update.name {
            Some(n) => n,
            None => ch.name,
        },
        kind: match update.config {
            Some(c) => c.transport,
            None => ch.kind,
        },
        config: match update.config {
            Some(c) => c,
            None => ch.config,
        },
        enabled: match update.enabled {
            Some(b) => b,
            None => ch.enabled,
        },
        disabled_reason: if update.enabled == Some(true) {
            None
        } else {
            ch.disabled_reason
        },
        verified_at: if update.config is Some {
            None
        } else {
            ch.verified_at
        },
        write_source: source,
        created_at: ch.created_at,
        updated_at: now,
    }
}

/// What changing a channel does and returns.
pub open spec fn updated(
    before: Seq<ChannelEntry>,
    after: Seq<ChannelEntry>,
    r: Result<Option<NotificationChannel>, AppError>,
    org: OrgId,
    id: u128,
    update: NotificationChannelUpdate,
    source: WriteSource,
    now: Timestamp,
) -> bool {
    if update.name is Some && index_where(before, clashes(org, id, update.name->Some_0@)) is Some {
        after == before && (r matches Err(e) && is_name_taken(e))
    } else {
        match index_where(before, of_id(org, id)) {
            None => after == before && r == Ok::<Option<NotificationChannel>, AppError>(None),
            Some(i) => {
                let ch = patched(before[i].ch, update, source, now);
                &&& after == before.update(i, ChannelEntry { ch, ..before[i] })
                &&& r == Ok::<Option<NotificationChannel>, AppError>(Some(ch))
            },
        }
    }
}

/// A channel after its chat was severed.
pub open spec fn severed(
    before: ChannelEntry,
    after: ChannelEntry,
    kind: ChannelKind,
    external_ref: Seq<char>,
    reason: Seq<char>,
    now: Timestamp,
) -> bool {
    if live_link(kind, external_ref)(before) {
        &&& opt_view(after.ch.disabled_reason) == Some(reason)
        &&& after == (ChannelEntry {
            ch: NotificationChannel {
                enabled: false,
                disabled_reason: after.ch.disabled_reason,
                updated_at: now,
                ..before.ch
            },
            ..before
        })
    } else {
        after == before
    }
}

/// What severing a chat does and returns.
pub open spec fn disabled(
    before: Seq<ChannelEntry>,
    after: Seq<ChannelEntry>,
    r: u64,
    kind: ChannelKind,
    external_ref: Seq<char>,
    reason: Seq<char>,
    now: Timestamp,
) -> bool {
    &&& after.len() == before.len()
    &&& forall|i: int|
        0 <= i < before.len() ==> severed(
            before[i],
            #[trigger] after[i],
            kind,
            external_ref,
            reason,
            now,
        )
    &&& r == before.filter(live_link(kind, external_ref)).len()
}

/// What stamping a channel as verified does and returns.
pub open spec fn verified(
    before: Seq<ChannelEntry>,
    after: Seq<ChannelEntry>,
    r: bool,
    org: OrgId,
    id: u128,
    expected: Timestamp,
    now: Timestamp,
) -> bool {
    match index_where(before, verifiable(org, id, expected)) {
        None => !r && after == before,
        Some(i) => r && after == before.update(
            i,
            ChannelEntry {
                ch: NotificationChannel {
                    verified_at: Some(now),
                    updated_at: now,
                    ..before[i].ch
                },
                ..before[i]
            },
        ),
    }
}

/// Channels in memory, each tagged with its org.
#[derive(Debug)]
pub struct InMemoryNotificationChannelStore {
    inner: Vec<ChannelEntry>,
}

impl View for InMemoryNotificationChannelStore {
    type V = Seq<ChannelEntry>;

    closed spec fn view(&self) -> Seq<ChannelEntry> {
        self.inner@
    }
}

impl InMemoryNotificationChannelStore {
    pub fn new() -> (r: Self)
        ensures
            r@ == Seq::<ChannelEntry>::empty(),
    {
        InMemoryNotificationChannelStore { inner: Vec::new() }
    }

    /// Entries across every org.
    pub fn len(&self) -> (r: usize)
        ensures
            r == self@.len(),
    {
        self.inner.len()
    }

    pub fn is_empty(&self) -> (r: bool)
        ensures
            r == (self@.len() == 0),
    {
        self.inner.len() == 0
    }

    fn find(&self, org: OrgId, id: u128) -> (r: Option<usize>)
        ensures
            match r {
                Some(i) => index_where(self@, of_id(org, id)) == Some(i as int) && i < self@.len(),
                None => index_where(self@, of_id(org, id)) is None,
            },
    {
        let same = |e: &ChannelEntry| -> (b: bool)
            ensures
                b == (e.org == org && e.ch.id == id),
        { e.org == org && e.ch.id == id };
        position(&self.inner, same, Ghost(of_id(org, id)))
    }

    /// Makes a channel at `now` under the id `id`. A duplicate name within the org
    /// and a breach of `max_channels` are refused.
    pub fn create_at(
        &mut self,
        org: OrgId,
        new: NewNotificationChannel,
        source: WriteSource,
        max_channels: i64,
        now: Timestamp,
        id: u128,
    ) -> (r: Result<NotificationChannel, AppError>)
        ensures
            created(old(self)@, final(self)@, r, org, new, source, max_channels, now, id),
    {
        let same = |e: &ChannelEntry| -> (b: bool)
            ensures
                b == (e.org == org && e.ch.name@ == new.name@),
        { e.org == org && str_eq(e.ch.name.as_str(), new.name.as_str()) };
        if position(&self.inner, same, Ghost(of_name(org, new.name@))).is_some() {
            return Err(name_taken());
        }
        let own = |e: &ChannelEntry| -> (b: bool)
            ensures
                b == (e.org == org),
        { e.org == org };
        let n: usize = count_where(&self.inner, own, Ghost(of_org(org)));
        if n as i128 >= max_channels as i128 {
            return Err(over_cap());
        }
        let kind = new.config.kind();
        let ch = NotificationChannel {
            id,
            name: new.name,
            kind,
            config: new.config,
            enabled: new.enabled,
            disabled_reason: None,
            verified_at: None,
            write_source: source,
            created_at: now,
            updated_at: now,
        };
        let shown = ch.clone();
        self.inner.push(ChannelEntry { org, external_ref: new.external_ref, ch });
        Ok(shown)
    }

    /// Makes a channel now.
    pub fn create(
        &mut self,
        org: OrgId,
        new: NewNotificationChannel,
        source: WriteSource,
        max_channels: i64,
    ) -> (r: Result<NotificationChannel, AppError>)
        ensures
            exists|t: Timestamp, id: u128|
                t.wf() && #[trigger] created(
                    old(self)@,
                    final(self)@,
                    r,
                    org,
                    new,
                    source,
                    max_channels,
                    t,
                    id,
                ),
    {
        let t = now();
        let id: u128 = fresh_id();
        self.create_at(org, new, source, max_channels, t, id)
    }

    /// The org's channels by name.
    pub fn list(&self, org: OrgId) -> (out: Vec<NotificationChannel>)
        ensures
            out@ == stable_sorted(self@.filter(of_org(org)), name_order()).map_values(
                |e: ChannelEntry| e.ch,
            ),
    {
        let own = |e: &ChannelEntry| -> (b: bool)
            ensures
                b == (e.org == org),
        { e.org == org };
        let hits = select_refs(&self.inner, own, Ghost(of_org(org)));
        let le = |a: &ChannelEntry, b: &ChannelEntry| -> (r: bool)
            ensures
                r == str_le(a.ch.name@, b.ch.name@),
        { at_most(a.ch.name.as_str(), b.ch.name.as_str()) };
        let sorted = sort_refs(hits, le, Ghost(name_order()));
        let ghost all = derefs(sorted@);
        let mut out: Vec<NotificationChannel> = Vec::new();
        let mut i: usize = 0;
        while i < sorted.len()
            invariant
                i <= sorted@.len(),
                all == derefs(sorted@),
                out@ == all.take(i as int).map_values(|e: ChannelEntry| e.ch),
            decreases sorted.len() - i,
        {
            assert(all[i as int] == *sorted@[i as int]);
            out.push(sorted[i].ch.clone());
            i += 1;
            assert(out@ =~= all.take(i as int).map_values(|e: ChannelEntry| e.ch));
        }
        assert(all.take(i as int) =~= all);
        out
    }

    /// The org's channel with this id.
    pub fn get(&self, org: OrgId, id: u128) -> (r: Option<NotificationChannel>)
        ensures
            r == (match index_where(self@, of_id(org, id)) {
                Some(i) => Some(self@[i].ch),
                None => None,
            }),
    {
        match self.find(org, id) {
            Some(i) => Some(self.inner[i].ch.clone()),
            None => None,
        }
    }

    /// Changes a channel at `now`. A replaced config must be verified again;
    /// enabling clears the note on why the channel was disabled.
    pub fn update_at(
        &mut self,
        org: OrgId,
        id: u128,
        update: NotificationChannelUpdate,
        source: WriteSource,
        now: Timestamp,
    ) -> (r: Result<Option<NotificationChannel>, AppError>)
        ensures
            updated(old(self)@, final(self)@, r, org, id, update, source, now),
    {
        if let Some(name) = &update.name {
            let clash = |e: &ChannelEntry| -> (b: bool)
                ensures
                    b == (e.org == org && e.ch.id != id && e.ch.name@ == name@),
            { e.org == org && e.ch.id != id && str_eq(e.ch.name.as_str(), name.as_str()) };
            if position(&self.inner, clash, Ghost(clashes(org, id, name@))).is_some() {
                return Err(name_taken());
            }
        }
        let Some(i) = self.find(org, id) else {
            return Ok(None);
        };
        let ghost before = self.inner@;
        let mut ch = self.inner[i].ch.clone();
        let external_ref = opt_clone(&self.inner[i].external_ref);
        if let Some(name) = update.name {
            ch.name = name;
        }
        if let Some(cfg) = update.config {
            ch.kind = cfg.kind();
            ch.config = cfg;
            ch.verified_at = None;
        }
        if let Some(enabled) = update.enabled {
            ch.enabled = enabled;
            if enabled {
                ch.disabled_reason = None;
            }
        }
        ch.write_source = source;
        ch.updated_at = now;
        assert(ch == patched(before[i as int].ch, update, source, now));
        let shown = ch.clone();
        let entry_org = self.inner[i].org;
        self.inner[i] = ChannelEntry { org: entry_org, external_ref, ch };
        Ok(Some(shown))
    }

    /// Changes a channel now.
    pub fn update(
        &mut self,
        org: OrgId,
        id: u128,
        update: NotificationChannelUpdate,
        source: WriteSource,
    ) -> (r: Result<Option<NotificationChannel>, AppError>)
        ensures
            exists|t: Timestamp|
                t.wf() && #[trigger] updated(
                    old(self)@,
                    final(self)@,
                    r,
                    org,
                    id,
                    update,
                    source,
                    t,
                ),
    {
        let t = now();
        self.update_at(org, id, update, source, t)
    }

    /// Deletes the org's channel with this id.
    pub fn delete(&mut self, org: OrgId, id: u128) -> (r: bool)
        ensures
            final(self)@ == old(self)@.filter(|e: ChannelEntry| !of_id(org, id)(e)),
            r == (final(self)@.len() < old(self)@.len()),
    {
        let before: usize = self.inner.len();
        let keep = |e: &ChannelEntry| -> (b: bool)
            ensures
                b == !(e.org == org && e.ch.id == id),
        { !(e.org == org && e.ch.id == id) };
        retain(&mut self.inner, keep, Ghost(|e: ChannelEntry| !of_id(org, id)(e)));
        self.inner.len() < before
    }

    /// Disables at `now` every channel of `kind` carrying `external_ref`, of any
    /// org; returns how many flipped.
    pub fn disable_by_external_ref_at(
        &mut self,
        kind: ChannelKind,
        external_ref: &str,
        reason: &str,
        now: Timestamp,
    ) -> (r: u64)
        ensures
            disabled(old(self)@, final(self)@, r, kind, external_ref@, reason@, now),
    {
        let ghost before = self.inner@;
        let ghost p = live_link(kind, external_ref@);
        let mut flipped: u64 = 0;
        let mut i: usize = 0;
        assert(before.take(0).filter(p) =~= Seq::<ChannelEntry>::empty()) by {
            reveal(Seq::filter);
        }
        while i < self.inner.len()
            invariant
                i <= self.inner@.len(),
                self.inner@.len() == before.len(),
                p == live_link(kind, external_ref@),
                forall|j: int|
                    0 <= j < i ==> severed(
                        before[j],
                        #[trigger] self.inner@[j],
                        kind,
                        external_ref@,
                        reason@,
                        now,
                    ),
                forall|j: int| i <= j < before.len() ==> #[trigger] self.inner@[j] == before[j],
                flipped == before.take(i as int).filter(p).len(),
                flipped <= i,
            decreases self.inner.len() - i,
        {
            proof {
                lemma_filter_take(before, i as int, p);
                assert(self.inner@[i as int] == before[i as int]);
            }
            let hit = match &self.inner[i].external_ref {
                Some(x) => self.inner[i].ch.kind == kind && str_eq(x.as_str(), external_ref)
                    && self.inner[i].ch.enabled,
                None => false,
            };
            assert(hit == p(before[i as int]));
            if hit {
                let mut ch = self.inner[i].ch.clone();
                ch.enabled = false;
                ch.disabled_reason = Some(owned(reason));
                ch.updated_at = now;
                let org = self.inner[i].org;
                let external = opt_clone(&self.inner[i].external_ref);
                self.inner[i] = ChannelEntry { org, external_ref: external, ch };
                flipped += 1;
            }
            i += 1;
        }
        assert(before.take(i as int) =~= before);
        flipped
    }

    /// Disables now every channel of `kind` carrying `external_ref`.
    pub fn disable_by_external_ref(
        &mut self,
        kind: ChannelKind,
        external_ref: &str,
        reason: &str,
    ) -> (r: u64)
        ensures
            exists|t: Timestamp|
                t.wf() && #[trigger] disabled(
                    old(self)@,
                    final(self)@,
                    r,
                    kind,
                    external_ref@,
                    reason@,
                    t,
                ),
    {
        let t = now();
        self.disable_by_external_ref_at(kind, external_ref, reason, t)
    }

    /// Channels of `kind`, of any org, that carry `external_ref`.
    pub fn count_by_external_ref(&self, kind: ChannelKind, external_ref: &str) -> (r: u64)
        ensures
            r == self@.filter(linked(kind, external_ref@)).len(),
    {
        let hit = |e: &ChannelEntry| -> (b: bool)
            ensures
                b == (e.ch.kind == kind && opt_view(e.external_ref) == Some(external_ref@)),
        {
            match &e.external_ref {
                Some(x) => e.ch.kind == kind && str_eq(x.as_str(), external_ref),
                None => false,
            }
        };
        let n: usize = count_where(&self.inner, hit, Ghost(linked(kind, external_ref@)));
        n as u64
    }

    /// Those of `ids` that exist in the org, in the order given.
    pub fn existing_channel_ids(&self, org: OrgId, ids: &Vec<u128>) -> (out: Vec<u128>)
        ensures
            out@ == ids@.filter(|id: u128| index_where(self@, of_id(org, id)) is Some),
    {
        let ghost p = |id: u128| index_where(self@, of_id(org, id)) is Some;
        let mut out: Vec<u128> = Vec::new();
        let mut i: usize = 0;
        assert(ids@.take(0).filter(p) =~= Seq::<u128>::empty()) by {
            reveal(Seq::filter);
        }
        while i < ids.len()
            invariant
                i <= ids@.len(),
                p == (|id: u128| index_where(self@, of_id(org, id)) is Some),
                out@ == ids@.take(i as int).filter(p),
            decreases ids.len() - i,
        {
            proof {
                lemma_filter_take(ids@, i as int, p);
            }
            if self.find(org, ids[i]).is_some() {
                out.push(ids[i]);
            }
            i += 1;
        }
        assert(ids@.take(i as int) =~= ids@);
        out
    }

    /// Stamps an email channel as verified at `now`; `false` when the channel is
    /// gone, not an email kind, or was modified after `expected_updated_at`.
    pub fn set_verified_at(
        &mut self,
        org: OrgId,
        id: u128,
        expected_updated_at: Timestamp,
        now: Timestamp,
    ) -> (r: bool)
        ensures
            verified(old(self)@, final(self)@, r, org, id, expected_updated_at, now),
    {
        let hit = |e: &ChannelEntry| -> (b: bool)
            ensures
                b == (e.org == org && e.ch.id == id && e.ch.kind == ChannelKind::Email
                    && e.ch.updated_at == expected_updated_at),
        {
            e.org == org && e.ch.id == id && e.ch.kind == ChannelKind::Email && e.ch.updated_at
                == expected_updated_at
        };
        let found = position(&self.inner, hit, Ghost(verifiable(org, id, expected_updated_at)));
        let Some(i) = found else {
            return false;
        };
        let mut ch = self.inner[i].ch.clone();
        ch.verified_at = Some(now);
        ch.updated_at = now;
        let entry_org = self.inner[i].org;
        let external_ref = opt_clone(&self.inner[i].external_ref);
        self.inner[i] = ChannelEntry { org: entry_org, external_ref, ch };
        true
    }

    /// Stamps an email channel as verified now.
    pub fn set_verified(&mut self, org: OrgId, id: u128, expected_updated_at: Timestamp) -> (r:
        bool)
        ensures
            exists|t: Timestamp|
                t.wf() && #[trigger] verified(
                    old(self)@,
                    final(self)@,
                    r,
                    org,
                    id,
                    expected_updated_at,
                    t,
                ),
    {
        let t = now();
        self.set_verified_at(org, id, expected_updated_at, t)
    }
}

/// No org has two channels of one name.
pub open spec fn names_unique(s: Seq<ChannelEntry>) -> bool {
    forall|i: int, j: int|
        0 <= i < j < s.len() ==> !((#[trigger] s[i]).org == (#[trigger] s[j]).org && s[i].ch.name@
            == s[j].ch.name@)
}

/// No two channels have one id.
pub open spec fn ids_unique(s: Seq<ChannelEntry>) -> bool {
    forall|i: int, j: int|
        0 <= i < j < s.len() ==> (#[trigger] s[i]).ch.id != (#[trigger] s[j]).ch.id
}

/// Creating keeps names unique within an org, never takes an org over the cap, and
/// changes no other org's channels.
pub proof fn law_create_keeps_names_and_cap(
    before: Seq<ChannelEntry>,
    after: Seq<ChannelEntry>,
    r: Result<NotificationChannel, AppError>,
    org: OrgId,
    new: NewNotificationChannel,
    source: WriteSource,
    max_channels: i64,
    now: Timestamp,
    id: u128,
    other: OrgId,
)
    requires
        created(before, after, r, org, new, source, max_channels, now, id),
        names_unique(before),
        other != org,
    ensures
        names_unique(after),
        r is Ok ==> after.filter(of_org(org)).len() <= max_channels,
        r is Err ==> after == before,
        after.filter(of_org(other)) == before.filter(of_org(other)),
{
    lemma_index_where(before, of_name(org, new.name@));
    if r is Ok {
        let e = after.last();
        assert(after == before.push(e));
        lemma_filter_push(before, e, of_org(org));
        lemma_filter_push(before, e, of_org(other));
        assert forall|i: int, j: int| 0 <= i < j < after.len() implies !((#[trigger] after[i]).org
            == (#[trigger] after[j]).org && after[i].ch.name@ == after[j].ch.name@) by {
            assert(after[i] == before[i]);
            if j < before.len() {
                assert(after[j] == before[j]);
                assert(!(before[i].org == before[j].org && before[i].ch.name@
                    == before[j].ch.name@));
            } else {
                assert(!of_name(org, new.name@)(before[i]));
            }
        }
    }
}

/// Changing a channel keeps names unique within an org and changes nothing but the
/// one channel.
pub proof fn law_update_keeps_names(
    before: Seq<ChannelEntry>,
    after: Seq<ChannelEntry>,
    r: Result<Option<NotificationChannel>, AppError>,
    org: OrgId,
    id: u128,
    update: NotificationChannelUpdate,
    source: WriteSource,
    now: Timestamp,
)
    requires
        updated(before, after, r, org, id, update, source, now),
        names_unique(before),
        ids_unique(before),
    ensures
        names_unique(after),
        ids_unique(after),
        after.len() == before.len(),
        forall|j: int|
            0 <= j < before.len() && !of_id(org, id)(before[j]) ==> #[trigger] after[j]
                == before[j],
{
    lemma_index_where(before, of_id(org, id));
    if update.name is Some {
        lemma_index_where(before, clashes(org, id, update.name->Some_0@));
    }
    if let Ok(Some(_)) = r {
        let i = index_where(before, of_id(org, id))->Some_0;
        assert(of_id(org, id)(before[i]));
        assert forall|a: int, b: int| 0 <= a < b < after.len() implies !((#[trigger] after[a]).org
            == (#[trigger] after[b]).org && after[a].ch.name@ == after[b].ch.name@) by {
            assert(!(before[a].org == before[b].org && before[a].ch.name@ == before[b].ch.name@));
            assert(before[a].ch.id != before[b].ch.id);
            if update.name is Some {
                assert(!clashes(org, id, update.name->Some_0@)(before[a]));
                assert(!clashes(org, id, update.name->Some_0@)(before[b]));
            }
        }
        assert forall|a: int, b: int| 0 <= a < b < after.len() implies (#[trigger] after[a]).ch.id
            != (#[trigger] after[b]).ch.id by {
            assert(before[a].ch.id != before[b].ch.id);
        }
    }
}

/// Another org's request by id neither finds nor changes a channel.
pub proof fn law_channels_are_isolated(
    before: Seq<ChannelEntry>,
    after: Seq<ChannelEntry>,
    r: Result<Option<NotificationChannel>, AppError>,
    org: OrgId,
    id: u128,
    update: NotificationChannelUpdate,
    source: WriteSource,
    now: Timestamp,
)
    requires
        updated(before, after, r, org, id, update, source, now),
        forall|j: int|
            0 <= j < before.len() && (#[trigger] before[j]).ch.id == id ==> before[j].org != org,
    ensures
        index_where(before, of_id(org, id)) is None,
        after == before,
        r matches Ok(x) ==> x is None,
{
    lemma_index_where_none(before, of_id(org, id));
}

/// Severing a chat twice flips nothing the second time.
pub proof fn law_disabling_is_idempotent(
    before: Seq<ChannelEntry>,
    mid: Seq<ChannelEntry>,
    after: Seq<ChannelEntry>,
    n: u64,
    m: u64,
    kind: ChannelKind,
    external_ref: Seq<char>,
    reason: Seq<char>,
    t: Timestamp,
    u: Timestamp,
)
    requires
        disabled(before, mid, n, kind, external_ref, reason, t),
        disabled(mid, after, m, kind, external_ref, reason, u),
    ensures
        m == 0,
        after == mid,
{
    let p = live_link(kind, external_ref);
    assert forall|i: int| 0 <= i < mid.len() implies !p(#[trigger] mid[i]) by {
        assert(severed(before[i], mid[i], kind, external_ref, reason, t));
    }
    lemma_filter_members(mid, p);
    if mid.filter(p).len() > 0 {
        let x = mid.filter(p)[0];
        assert(mid.filter(p).contains(x));
        assert(mid.contains(x) && p(x));
        let i = choose|i: int| 0 <= i < mid.len() && mid[i] == x;
        assert(!p(mid[i]));
    }
    assert(after =~= mid) by {
        assert forall|i: int| 0 <= i < mid.len() implies after[i] == mid[i] by {
            assert(severed(mid[i], after[i], kind, external_ref, reason, u));
        }
    }
}

/// Enabling a channel clears the note on why it was disabled, and a replaced config
/// is not verified any more.
pub proof fn law_update_resets(
    ch: NotificationChannel,
    update: NotificationChannelUpdate,
    source: WriteSource,
    now: Timestamp,
)
    ensures
        update.enabled == Some(true) ==> patched(ch, update, source, now).disabled_reason is None
            && patched(ch, update, source, now).enabled,
        update.config is Some ==> patched(ch, update, source, now).verified_at is None,
        update.enabled != Some(true) ==> patched(ch, update, source, now).disabled_reason
            == ch.disabled_reason,
        update.config is None ==> patched(ch, update, source, now).verified_at == ch.verified_at
            && patched(ch, update, source, now).kind == ch.kind,
{
}

/// A config swap that races the verification click is not verified by it.
pub proof fn law_a_swapped_config_is_not_verified(
    before: Seq<ChannelEntry>,
    mid: Seq<ChannelEntry>,
    after: Seq<ChannelEntry>,
    r: Result<Option<NotificationChannel>, AppError>,
    stamped: bool,
    org: OrgId,
    id: u128,
    update: NotificationChannelUpdate,
    source: WriteSource,
    expected: Timestamp,
    t: Timestamp,
    u: Timestamp,
)
    requires
        ids_unique(before),
        updated(before, mid, r, org, id, update, source, t),
        r matches Ok(Some(_)),
        t != expected,
        verified(mid, after, stamped, org, id, expected, u),
    ensures
        !stamped,
        after == mid,
{
    lemma_index_where(before, of_id(org, id));
    let i = index_where(before, of_id(org, id))->Some_0;
    assert(of_id(org, id)(before[i]));
    assert forall|j: int| 0 <= j < mid.len() implies !verifiable(org, id, expected)(
        #[trigger] mid[j],
    ) by {
        if j < i {
            assert(before[j].ch.id != before[i].ch.id);
        } else if i < j {
            assert(before[i].ch.id != before[j].ch.id);
        }
    }
    lemma_index_where_none(mid, verifiable(org, id, expected));
}

/// Creating is refused as taken exactly where the org has a channel of the name, and as over
/// the cap exactly where it has not but holds as many channels as the cap allows. Otherwise
/// the channel is made as asked, unverified and without a note, and stands behind what was
/// there.
pub proof fn law_a_channel_is_made_as_asked(
    before: Seq<ChannelEntry>,
    after: Seq<ChannelEntry>,
    r: Result<NotificationChannel, AppError>,
    org: OrgId,
    new: NewNotificationChannel,
    source: WriteSource,
    max_channels: i64,
    now: Timestamp,
    id: u128,
)
    requires
        created(before, after, r, org, new, source, max_channels, now, id),
    ensures
        ({
            let taken = exists|i: int|
                0 <= i < before.len() && (#[trigger] before[i]).org == org && before[i].ch.name@
                    == new.name@;
            let held = before.filter(|e: ChannelEntry| e.org == org).len();
            &&& r is Ok <==> !taken && held < max_channels
            &&& taken ==> (r matches Err(AppError::Unprocessable { code, message }) && code@
                == "CHANNEL_NAME_TAKEN"@ && message@
                == "a notification channel with this name already exists"@)
            &&& !taken && held >= max_channels ==> (r matches Err(
                AppError::Unprocessable { code, message },
            ) && code@ == "CHANNEL_QUOTA_EXCEEDED"@ && message@
                == "notification channel limit reached for this plan"@)
        }),
        r is Err ==> after == before,
        r matches Ok(ch) ==> {
            &&& after == before.push(after.last())
            &&& after.last().org == org && after.last().external_ref == new.external_ref
            &&& after.last().ch == ch
            &&& ch.id == id && ch.name == new.name && ch.config == new.config
            &&& ch.kind == new.config.transport
            &&& ch.enabled == new.enabled
            &&& ch.disabled_reason is None && ch.verified_at is None
            &&& ch.write_source == source
            &&& ch.created_at == now && ch.updated_at == now
        },
{
    let p = of_name(org, new.name@);
    lemma_index_where(before, p);
    assert(of_org(org) =~= (|e: ChannelEntry| e.org == org));
    if let Some(i) = index_where(before, p) {
        assert(before[i].org == org && before[i].ch.name@ == new.name@);
    } else {
        assert forall|i: int| 0 <= i < before.len() implies !((#[trigger] before[i]).org == org
            && before[i].ch.name@ == new.name@) by {
            assert(!p(before[i]));
        }
    }
}

/// A change is refused exactly where it names another of the org's channels. Otherwise it
/// reaches the org's channel with the id: what it names is set and what it does not name stays,
/// a new config sets the kind and must be verified again, and enabling clears the note.
pub proof fn law_an_update_changes_what_it_names(
    before: Seq<ChannelEntry>,
    after: Seq<ChannelEntry>,
    r: Result<Option<NotificationChannel>, AppError>,
    org: OrgId,
    id: u128,
    update: NotificationChannelUpdate,
    source: WriteSource,
    now: Timestamp,
    i: int,
)
    requires
        updated(before, after, r, org, id, update, source, now),
        0 <= i <= before.len(),
        forall|j: int|
            0 <= j < i ==> (#[trigger] before[j]).org != org || before[j].ch.id != id,
        i < before.len() ==> before[i].org == org && before[i].ch.id == id,
    ensures
        r is Err <==> (update.name matches Some(n) && exists|j: int|
            0 <= j < before.len() && (#[trigger] before[j]).org == org && before[j].ch.id != id
                && before[j].ch.name@ == n@),
        r matches Err(e) ==> after == before && (e matches AppError::Unprocessable { code, .. }
            && code@ == "CHANNEL_NAME_TAKEN"@),
        r is Ok && i == before.len() ==> after == before && r->Ok_0 is None,
        r is Ok && i < before.len() ==> {
            let (a, b) = (after[i].ch, before[i].ch);
            &&& r->Ok_0 == Some(a)
            &&& after.len() == before.len()
            &&& after[i].org == org && after[i].external_ref == before[i].external_ref
            &&& a.id == id && a.created_at == b.created_at
            &&& a.updated_at == now && a.write_source == source
            &&& update.name is None ==> a.name == b.name
            &&& update.name matches Some(n) ==> a.name == n
            &&& update.config is None ==> a.config == b.config && a.kind == b.kind
                && a.verified_at == b.verified_at
            &&& update.config matches Some(c) ==> a.config == c && a.kind == c.transport
                && a.verified_at is None
            &&& update.enabled is None ==> a.enabled == b.enabled
            &&& update.enabled matches Some(on) ==> a.enabled == on
            &&& update.enabled == Some(true) ==> a.disabled_reason is None
            &&& update.enabled != Some(true) ==> a.disabled_reason == b.disabled_reason
            &&& forall|j: int|
                0 <= j < before.len() && j != i ==> #[trigger] after[j] == before[j]
        },
{
    if let Some(n) = update.name {
        let p = clashes(org, id, n@);
        lemma_index_where(before, p);
        if let Some(k) = index_where(before, p) {
            assert(before[k].org == org && before[k].ch.id != id);
        } else {
            assert forall|j: int| 0 <= j < before.len() implies !((#[trigger] before[j]).org == org
                && before[j].ch.id != id && before[j].ch.name@ == n@) by {
                assert(!p(before[j]));
            }
        }
    }
    if i < before.len() {
        lemma_index_where_is(before, of_id(org, id), i);
    } else {
        lemma_index_where_none(before, of_id(org, id));
    }
}

/// Severing a chat disables exactly the enabled channels of the kind that carry the reference,
/// whatever their org, notes why and when, and counts them.
pub proof fn law_severing_disables_what_carries_the_reference(
    before: Seq<ChannelEntry>,
    after: Seq<ChannelEntry>,
    r: u64,
    kind: ChannelKind,
    external_ref: Seq<char>,
    reason: Seq<char>,
    now: Timestamp,
    i: int,
)
    requires
        disabled(before, after, r, kind, external_ref, reason, now),
        0 <= i < before.len(),
    ensures
        after.len() == before.len(),
        r == before.filter(
            |e: ChannelEntry|
                e.ch.kind == kind && e.ch.enabled && opt_view(e.external_ref) == Some(
                    external_ref,
                ),
        ).len(),
        ({
            let (a, b) = (after[i], before[i]);
            let hit = b.ch.kind == kind && b.ch.enabled && opt_view(b.external_ref) == Some(
                external_ref,
            );
            &&& !hit ==> a == b
            &&& hit ==> {
                &&& !a.ch.enabled
                &&& opt_view(a.ch.disabled_reason) == Some(reason)
                &&& a.ch.updated_at == now
                &&& a.org == b.org && a.external_ref == b.external_ref
                &&& a.ch.id == b.ch.id && a.ch.name == b.ch.name && a.ch.kind == b.ch.kind
                &&& a.ch.config == b.ch.config && a.ch.verified_at == b.ch.verified_at
                &&& a.ch.write_source == b.ch.write_source && a.ch.created_at == b.ch.created_at
            }
        }),
{
    assert(severed(before[i], after[i], kind, external_ref, reason, now));
    assert(live_link(kind, external_ref) =~= (|e: ChannelEntry|
        e.ch.kind == kind && e.ch.enabled && opt_view(e.external_ref) == Some(external_ref)));
}

/// A channel carries a reference where its kind and its reference are the ones asked for,
/// enabled or not.
pub proof fn law_references_are_counted_enabled_or_not(
    s: Seq<ChannelEntry>,
    kind: ChannelKind,
    external_ref: Seq<char>,
)
    ensures
        s.filter(linked(kind, external_ref)).len() == s.filter(
            |e: ChannelEntry|
                e.ch.kind == kind && opt_view(e.external_ref) == Some(external_ref),
        ).len(),
{
    assert(linked(kind, external_ref) =~= (|e: ChannelEntry|
        e.ch.kind == kind && opt_view(e.external_ref) == Some(external_ref)));
}

/// The click verifies the org's email channel with the id where nothing touched it since, and
/// stamps it; nothing else changes.
pub proof fn law_verifying_stamps_the_channel(
    before: Seq<ChannelEntry>,
    after: Seq<ChannelEntry>,
    r: bool,
    org: OrgId,
    id: u128,
    expected: Timestamp,
    now: Timestamp,
    i: int,
)
    requires
        verified(before, after, r, org, id, expected, now),
        0 <= i <= before.len(),
        forall|j: int|
            0 <= j < i ==> {
                let b = #[trigger] before[j];
                ||| b.org != org
                ||| b.ch.id != id
                ||| b.ch.kind != ChannelKind::Email
                ||| b.ch.updated_at != expected
            },
        i < before.len() ==> before[i].org == org && before[i].ch.id == id && before[i].ch.kind
            == ChannelKind::Email && before[i].ch.updated_at == expected,
    ensures
        i == before.len() ==> !r && after == before,
        i < before.len() ==> {
            let (a, b) = (after[i], before[i]);
            &&& r
            &&& after.len() == before.len()
            &&& a.ch.verified_at == Some(now) && a.ch.updated_at == now
            &&& a.org == b.org && a.external_ref == b.external_ref
            &&& a.ch.id == b.ch.id && a.ch.name == b.ch.name && a.ch.kind == b.ch.kind
            &&& a.ch.config == b.ch.config && a.ch.enabled == b.ch.enabled
            &&& a.ch.disabled_reason == b.ch.disabled_reason
            &&& a.ch.write_source == b.ch.write_source && a.ch.created_at == b.ch.created_at
            &&& forall|j: int|
                0 <= j < before.len() && j != i ==> #[trigger] after[j] == before[j]
        },
{
    if i < before.len() {
        lemma_index_where_is(before, verifiable(org, id, expected), i);
    } else {
        lemma_index_where_none(before, verifiable(org, id, expected));
    }
}

/// A channel is found by its org and its id; deleting takes that and leaves the rest.
pub proof fn law_a_channel_is_found_by_org_and_id(
    s: Seq<ChannelEntry>,
    org: OrgId,
    id: u128,
    i: int,
    x: ChannelEntry,
)
    requires
        0 <= i <= s.len(),
        forall|j: int| 0 <= j < i ==> (#[trigger] s[j]).org != org || s[j].ch.id != id,
        i < s.len() ==> s[i].org == org && s[i].ch.id == id,
    ensures
        index_where(s, of_id(org, id)) == (if i < s.len() {
            Some(i)
        } else {
            None
        }),
        s.filter(|e: ChannelEntry| !of_id(org, id)(e)).contains(x) <==> s.contains(x) && !(x.org
            == org && x.ch.id == id),
{
    if i < s.len() {
        lemma_index_where_is(s, of_id(org, id), i);
    } else {
        lemma_index_where_none(s, of_id(org, id));
    }
    lemma_filter_members(s, |e: ChannelEntry| !of_id(org, id)(e));
}

/// The list holds exactly the org's channels, in the order of their names.
pub proof fn law_the_list_is_the_orgs_in_name_order(
    s: Seq<ChannelEntry>,
    org: OrgId,
    x: ChannelEntry,
)
    ensures
        ({
            let all = stable_sorted(s.filter(of_org(org)), name_order());
            &&& all.contains(x) <==> s.contains(x) && x.org == org
            &&& forall|i: int, j: int|
                0 <= i < j < all.len() ==> str_le(
                    (#[trigger] all[i]).ch.name@,
                    (#[trigger] all[j]).ch.name@,
                )
        }),
{
    let le = name_order();
    let all = stable_sorted(s.filter(of_org(org)), le);
    assert(is_order(le)) by {
        assert forall|a: ChannelEntry, b: ChannelEntry| #[trigger] le(a, b) || le(b, a) by {
            lemma_str_le(a.ch.name@, b.ch.name@, a.ch.name@);
        }
        assert forall|a: ChannelEntry, b: ChannelEntry, c: ChannelEntry| #[trigger]
            le(a, b) && #[trigger] le(b, c) implies le(a, c) by {
            lemma_str_le(a.ch.name@, b.ch.name@, c.ch.name@);
        }
    }
    lemma_listing(s, of_org(org), le, 0, 0);
    lemma_stable_sorted(s.filter(of_org(org)), le);
    assert forall|i: int, j: int| 0 <= i < j < all.len() implies str_le(
        (#[trigger] all[i]).ch.name@,
        (#[trigger] all[j]).ch.name@,
    ) by {
        assert(le(all[i], all[j]));
    }
}

/// Reading a stored config without a key refuses an envelope, with one refuses anything else;
/// what is refused says why.
pub proof fn law_a_mode_mismatch_says_why(value: Json, has_key: bool, r: Result<OpenStep, AppError>)
    requires
        reads_as(value, has_key, r),
    ensures
        r is Err <==> has_key != (envelope_text(value) is Some),
        r is Err && has_key ==> (r matches Err(AppError::Other(m)) && m@
            == "notification channel is plaintext but a credentials KEK is configured — write path mismatch"@),
        r is Err && !has_key ==> (r matches Err(AppError::Other(m)) && m@
            == "notification channel is sealed but no credentials KEK is configured"@),
{
}

} // verus!
