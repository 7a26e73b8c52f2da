//! `channel_link_codes` — single-use codes that attach exactly one notification
//! channel to an org from outside the dashboard: the `telegram` purpose binds a
//! chat through the central bot, the `delegate` purpose powers the public
//! `/c/<code>` connect page.
//!
//! Mint is org-scoped and capped per purpose. Consume is deliberately *not*
//! org-scoped: the consuming surface has no tenant context — the code row
//! IS the org authority.

use vstd::prelude::*;

use crate::collections::{
    count_where, index_where, lemma_filter_members, lemma_filter_push, lemma_filter_narrows,
    lemma_index_where, lemma_index_where_is, lemma_index_where_none, lemma_listing,
    lemma_stable_sorted, position, retain, select, stable_sort, stable_sorted,
};
use crate::ids::{fresh_id, OrgId, UserId};
use crate::strings::{opt_clone, opt_owned, opt_str_view, opt_view, owned, str_eq};
use crate::time::{now, Timestamp};

verus! {

/// What a link code is for.
#[derive(Debug, Clone, Copy, PartialEq, Eq, Structural)]
pub enum LinkPurpose {
    Telegram,
    Delegate,
    Whatsapp,
}

impl LinkPurpose {
    /// Every purpose, in the order of their declaration.
    pub fn all() -> (r: Vec<LinkPurpose>)
        ensures
            r@ == seq![LinkPurpose::Telegram, LinkPurpose::Delegate, LinkPurpose::Whatsapp],
    {
        let mut r: Vec<LinkPurpose> = Vec::new();
        r.push(LinkPurpose::Telegram);
        r.push(LinkPurpose::Delegate);
        r.push(LinkPurpose::Whatsapp);
        r
    }

    /// The name that the `purpose` column stores.
    pub open spec fn db_name(self) -> Seq<char> {
        match self {
            LinkPurpose::Telegram => "telegram"@,
            LinkPurpose::Delegate => "delegate"@,
            LinkPurpose::Whatsapp => "whatsapp"@,
        }
    }

    pub fn as_db_str(self) -> (r: &'static str)
        ensures
            r@ == self.db_name(),
            match self {
                LinkPurpose::Telegram => r@ == "telegram"@,
                LinkPurpose::Delegate => r@ == "delegate"@,
                LinkPurpose::Whatsapp => r@ == "whatsapp"@,
            },
    {
        match self {
            LinkPurpose::Telegram => "telegram",
            LinkPurpose::Delegate => "delegate",
            LinkPurpose::Whatsapp => "whatsapp",
        }
    }
}

/// Every purpose is listed, and no two share a stored name.
pub proof fn law_purposes_have_names_of_their_own(a: LinkPurpose, b: LinkPurpose)
    ensures
        seq![LinkPurpose::Telegram, LinkPurpose::Delegate, LinkPurpose::Whatsapp].contains(a),
        a.db_name() == b.db_name() <==> a == b,
{
    reveal_strlit("telegram");
    reveal_strlit("delegate");
    reveal_strlit("whatsapp");
    let all = seq![LinkPurpose::Telegram, LinkPurpose::Delegate, LinkPurpose::Whatsapp];
    assert(all[0] == LinkPurpose::Telegram && all[1] == LinkPurpose::Delegate && all[2]
        == LinkPurpose::Whatsapp);
    assert("telegram"@[0] == 't' && "delegate"@[0] == 'd' && "whatsapp"@[0] == 'w');
}

/// A code that was minted.
#[derive(Debug, Clone, Copy, PartialEq, Eq, Structural)]
pub struct LinkCode {
    pub id: u128,
    pub expires_at: Timestamp,
}

#[derive(Debug, Clone, Copy, PartialEq, Eq, Structural)]
pub enum MintOutcome {
    Created(LinkCode),
    /// The org already holds the maximum of outstanding unconsumed codes
    /// for this purpose.
    LimitReached,
}

/// What the status poll reports. A consumed row whose channel was deleted (or
/// whose channel create failed) reads as `Expired`: the code can never link
/// again, so the form should mint a fresh one.
#[derive(Debug, Clone, Copy, PartialEq, Eq, Structural)]
pub enum LinkCodeStatus {
    Pending,
    Consumed { channel_id: u128 },
    Expired,
}

/// The org authority recovered from a consumed code — the only place an
/// unauthenticated consume surface may take a tenant identity from.
#[derive(Debug)]
pub struct ConsumedLink {
    pub id: u128,
    pub org_id: OrgId,
    pub channel_name: Option<String>,
    pub kind_hint: Option<String>,
}

/// A live (or spent) delegate link as listed on the channels page.
#[derive(Debug)]
pub struct DelegateRow {
    pub id: u128,
    pub channel_name: Option<String>,
    pub kind_hint: Option<String>,
    pub created_at: Timestamp,
    pub expires_at: Timestamp,
    pub status: LinkCodeStatus,
}

/// What a poll reports of a row. A revoked link reads as `Expired`: dead either
/// way, no enumeration signal.
pub open spec fn status_of(
    consumed_at: Option<Timestamp>,
    expires_at: Timestamp,
    channel_id: Option<u128>,
    revoked_at: Option<Timestamp>,
    now: Timestamp,
) -> LinkCodeStatus {
    if consumed_at is Some {
        match channel_id {
            Some(id) => LinkCodeStatus::Consumed { channel_id: id },
            None => LinkCodeStatus::Expired,
        }
    } else if revoked_at is Some || expires_at.nanos <= now.nanos {
        LinkCodeStatus::Expired
    } else {
        LinkCodeStatus::Pending
    }
}

/// Shared by every store so they can't drift.
pub fn link_status(
    consumed_at: Option<Timestamp>,
    expires_at: Timestamp,
    channel_id: Option<u128>,
    revoked_at: Option<Timestamp>,
    now: Timestamp,
) -> (r: LinkCodeStatus)
    ensures
        r == status_of(consumed_at, expires_at, channel_id, revoked_at, now),
{
    match (consumed_at, channel_id) {
        (Some(_), Some(channel_id)) => LinkCodeStatus::Consumed { channel_id },
        // Claimed but no channel materialised: dead either way.
        (Some(_), None) => LinkCodeStatus::Expired,
        (None, _) => {
            if revoked_at.is_some() || expires_at.nanos <= now.nanos {
                LinkCodeStatus::Expired
            } else {
                LinkCodeStatus::Pending
            }
        },
    }
}

/// One stored code.
#[derive(Debug)]
pub struct LinkRow {
    pub id: u128,
    pub org: OrgId,
    pub purpose: LinkPurpose,
    pub code_hash: String,
    pub channel_name: Option<String>,
    pub kind_hint: Option<String>,
    pub created_at: Timestamp,
    pub expires_at: Timestamp,
    pub consumed_at: Option<Timestamp>,
    pub revoked_at: Option<Timestamp>,
    pub channel_id: Option<u128>,
}

impl LinkRow {
    /// The code can still be claimed.
    pub open spec fn is_live(self, now: Timestamp) -> bool {
        self.consumed_at is None && self.revoked_at is None && self.expires_at.nanos > now.nanos
    }

    /// The code's life is over and it left no channel.
    pub open spec fn is_spent(self, org: OrgId, now: Timestamp) -> bool {
        self.org == org && self.expires_at.nanos <= now.nanos && self.channel_id is None
    }

    /// What a poll reports of the code.
    pub open spec fn status_at(self, now: Timestamp) -> LinkCodeStatus {
        status_of(self.consumed_at, self.expires_at, self.channel_id, self.revoked_at, now)
    }

    pub fn live(&self, now: Timestamp) -> (r: bool)
        ensures
            r == self.is_live(now),
    {
        self.consumed_at.is_none() && self.revoked_at.is_none() && self.expires_at.nanos > now.nanos
    }

    fn status(&self, now: Timestamp) -> (r: LinkCodeStatus)
        ensures
            r == self.status_at(now),
    {
        link_status(self.consumed_at, self.expires_at, self.channel_id, self.revoked_at, now)
    }

    fn to_link(&self) -> (r: ConsumedLink)
        ensures
            r.is_of(*self),
    {
        ConsumedLink {
            id: self.id,
            org_id: self.org,
            channel_name: opt_clone(&self.channel_name),
            kind_hint: opt_clone(&self.kind_hint),
        }
    }
}

impl ConsumedLink {
    /// The link carries exactly what this row holds.
    pub open spec fn is_of(self, row: LinkRow) -> bool {
        &&& self.id == row.id
        &&& self.org_id == row.org
        &&& self.channel_name == row.channel_name
        &&& self.kind_hint == row.kind_hint
    }
}

/// The row is a live code of this purpose with this hash.
pub open spec fn claimable(purpose: LinkPurpose, code_hash: Seq<char>, now: Timestamp) -> spec_fn(
    LinkRow,
) -> bool {
    |r: LinkRow| r.code_hash@ == code_hash && r.purpose == purpose && r.is_live(now)
}

/// The row has this id and is live.
pub open spec fn claimable_by_id(id: u128, now: Timestamp) -> spec_fn(LinkRow) -> bool {
    |r: LinkRow| r.id == id && r.is_live(now)
}

/// The row is the org's with this id.
pub open spec fn row_of(org: OrgId, id: u128) -> spec_fn(LinkRow) -> bool {
    |r: LinkRow| r.org == org && r.id == id
}

/// The row survives a mint's purge.
pub open spec fn survives(org: OrgId, now: Timestamp) -> spec_fn(LinkRow) -> bool {
    |r: LinkRow| !r.is_spent(org, now)
}

/// The row counts against the org's cap for this purpose.
pub open spec fn counts(org: OrgId, purpose: LinkPurpose, now: Timestamp) -> spec_fn(
    LinkRow,
) -> bool {
    |r: LinkRow| r.org == org && r.purpose == purpose && r.is_live(now)
}

/// How many live codes of a purpose an org holds.
pub open spec fn outstanding(
    rows: Seq<LinkRow>,
    org: OrgId,
    purpose: LinkPurpose,
    now: Timestamp,
) -> nat {
    rows.filter(counts(org, purpose, now)).len()
}

/// What minting a code at `now` under the id `id` does to the rows and returns.
pub open spec fn minted(
    before: Seq<LinkRow>,
    after: Seq<LinkRow>,
    outcome: MintOutcome,
    org: OrgId,
    purpose: LinkPurpose,
    code_hash: Seq<char>,
    channel_name: Option<Seq<char>>,
    kind_hint: Option<Seq<char>>,
    expires_at: Timestamp,
    max_outstanding: i64,
    now: Timestamp,
    id: u128,
) -> bool {
    let kept = before.filter(survives(org, now));
    if outstanding(kept, org, purpose, now) >= max_outstanding {
        outcome == MintOutcome::LimitReached && after == kept
    } else {
        &&& outcome == MintOutcome::Created(LinkCode { id, expires_at })
        &&& after.len() == kept.len() + 1
        &&& after.drop_last() == kept
        &&& {
            let row = after.last();
            &&& row.id == id
            &&& row.org == org
            &&& row.purpose == purpose
            &&& row.code_hash@ == code_hash
            &&& opt_view(row.channel_name) == channel_name
            &&& opt_view(row.kind_hint) == kind_hint
            &&& row.created_at == now
            &&& row.expires_at == expires_at
            &&& row.consumed_at is None
            &&& row.revoked_at is None
            &&& row.channel_id is None
        }
    }
}

/// What claiming the first row that `p` picks does to the rows and returns.
pub open spec fn claimed(
    before: Seq<LinkRow>,
    after: Seq<LinkRow>,
    r: Option<ConsumedLink>,
    p: spec_fn(LinkRow) -> bool,
    now: Timestamp,
) -> bool {
    match index_where(before, p) {
        Some(i) => {
            &&& after == before.update(i, LinkRow { consumed_at: Some(now), ..before[i] })
            &&& r matches Some(link) && link.is_of(before[i])
        },
        None => after == before && r is None,
    }
}

/// The row can be un-claimed: it has this id and left no channel.
pub open spec fn restorable(id: u128) -> spec_fn(LinkRow) -> bool {
    |r: LinkRow| r.id == id && r.channel_id is None
}

/// The row is a delegate link of the org that can be revoked.
pub open spec fn revocable(org: OrgId, id: u128) -> spec_fn(LinkRow) -> bool {
    |r: LinkRow|
        r.id == id && r.org == org && r.purpose == LinkPurpose::Delegate && r.consumed_at is None
            && r.revoked_at is None
}

/// What revoking a link at `now` does to the rows and returns.
pub open spec fn revoked(
    before: Seq<LinkRow>,
    after: Seq<LinkRow>,
    r: bool,
    org: OrgId,
    id: u128,
    now: Timestamp,
) -> bool {
    match index_where(before, revocable(org, id)) {
        Some(i) => r && after == before.update(
            i,
            LinkRow { revoked_at: Some(now), ..before[i] },
        ),
        None => !r && after == before,
    }
}

/// Newest first.
pub open spec fn newest_link_first() -> spec_fn(LinkRow, LinkRow) -> bool {
    |a: LinkRow, b: LinkRow| a.created_at.nanos >= b.created_at.nanos
}

/// The row is one of the org's delegate links.
pub open spec fn is_delegate_of(org: OrgId) -> spec_fn(LinkRow) -> bool {
    |r: LinkRow| r.org == org && r.purpose == LinkPurpose::Delegate
}

/// `d` lists this row.
pub open spec fn lists(d: DelegateRow, row: LinkRow, now: Timestamp) -> bool {
    &&& d.id == row.id
    &&& d.channel_name == row.channel_name
    &&& d.kind_hint == row.kind_hint
    &&& d.created_at == row.created_at
    &&& d.expires_at == row.expires_at
    &&& d.status == row.status_at(now)
}

/// `out` lists the org's delegate links, newest first.
pub open spec fn lists_delegates(
    out: Seq<DelegateRow>,
    rows: Seq<LinkRow>,
    org: OrgId,
    now: Timestamp,
) -> bool {
    let sorted = stable_sorted(rows.filter(is_delegate_of(org)), newest_link_first());
    &&& out.len() == sorted.len()
    &&& forall|i: int| 0 <= i < out.len() ==> lists(#[trigger] out[i], sorted[i], now)
}

/// Link codes in memory.
#[derive(Debug)]
pub struct InMemoryChannelLinkCodeStore {
    rows: Vec<LinkRow>,
}

impl View for InMemoryChannelLinkCodeStore {
    type V = Seq<LinkRow>;

    closed spec fn view(&self) -> Seq<LinkRow> {
        self.rows@
    }
}

impl Clone for LinkRow {
    fn clone(&self) -> (r: Self)
        ensures
            r == *self,
    {
        LinkRow {
            id: self.id,
            org: self.org,
            purpose: self.purpose,
            code_hash: self.code_hash.clone(),
            channel_name: opt_clone(&self.channel_name),
            kind_hint: opt_clone(&self.kind_hint),
            created_at: self.created_at,
            expires_at: self.expires_at,
            consumed_at: self.consumed_at,
            revoked_at: self.revoked_at,
            channel_id: self.channel_id,
        }
    }
}

impl InMemoryChannelLinkCodeStore {
    pub fn new() -> (r: Self)
        ensures
            r@ == Seq::<LinkRow>::empty(),
    {
        InMemoryChannelLinkCodeStore { rows: Vec::new() }
    }

    /// Mints a code at `now` under the id `id`, capped at `max_outstanding` live
    /// codes per org and purpose. The org's codes that expired without a channel
    /// are purged first.
    pub fn mint_at(
        &mut self,
        org: OrgId,
        purpose: LinkPurpose,
        code_hash: &str,
        channel_name: Option<&str>,
        kind_hint: Option<&str>,
        expires_at: Timestamp,
        max_outstanding: i64,
        now: Timestamp,
        id: u128,
    ) -> (r: MintOutcome)
        ensures
            minted(
                old(self)@,
                final(self)@,
                r,
                org,
                purpose,
                code_hash@,
                opt_str_view(channel_name),
                opt_str_view(kind_hint),
                expires_at,
                max_outstanding,
                now,
                id,
            ),
    {
        let keep = |r: &LinkRow| -> (b: bool)
            ensures
                b == !r.is_spent(org, now),
        { !(r.org == org && r.expires_at.nanos <= now.nanos && r.channel_id.is_none()) };
        retain(&mut self.rows, keep, Ghost(survives(org, now)));
        let live = |r: &LinkRow| -> (b: bool)
            ensures
                b == (r.org == org && r.purpose == purpose && r.is_live(now)),
        { r.org == org && r.purpose == purpose && r.live(now) };
        let held: usize = count_where(&self.rows, live, Ghost(counts(org, purpose, now)));
        if held as i128 >= max_outstanding as i128 {
            return MintOutcome::LimitReached;
        }
        let ghost kept = self.rows@;
        self.rows.push(
            LinkRow {
                id,
                org,
                purpose,
                code_hash: owned(code_hash),
                channel_name: opt_owned(channel_name),
                kind_hint: opt_owned(kind_hint),
                created_at: now,
                expires_at,
                consumed_at: None,
                revoked_at: None,
                channel_id: None,
            },
        );
        assert(self.rows@.drop_last() =~= kept);
        MintOutcome::Created(LinkCode { id, expires_at })
    }

    /// Mints a fresh code.
    pub fn mint(
        &mut self,
        org: OrgId,
        purpose: LinkPurpose,
        _created_by: Option<UserId>,
        code_hash: &str,
        channel_name: Option<&str>,
        kind_hint: Option<&str>,
        expires_at: Timestamp,
        max_outstanding: i64,
    ) -> (r: MintOutcome)
        ensures
            exists|t: Timestamp, id: u128|
                t.wf() && #[trigger] minted(
                    old(self)@,
                    final(self)@,
                    r,
                    org,
                    purpose,
                    code_hash@,
                    opt_str_view(channel_name),
                    opt_str_view(kind_hint),
                    expires_at,
                    max_outstanding,
                    t,
                    id,
                ),
    {
        let t = now();
        let id: u128 = fresh_id();
        self.mint_at(
            org,
            purpose,
            code_hash,
            channel_name,
            kind_hint,
            expires_at,
            max_outstanding,
            t,
            id,
        )
    }

    /// What a poll at `now` reports of the org's code. `None` = no such code in
    /// this org.
    pub fn status_at(&self, org: OrgId, id: u128, now: Timestamp) -> (r: Option<LinkCodeStatus>)
        ensures
            r == (match index_where(self@, row_of(org, id)) {
                Some(i) => Some(self@[i].status_at(now)),
                None => None,
            }),
    {
        let same = |r: &LinkRow| -> (b: bool)
            ensures
                b == (r.org == org && r.id == id),
        { r.org == org && r.id == id };
        match position(&self.rows, same, Ghost(row_of(org, id))) {
            Some(i) => Some(self.rows[i].status(now)),
            None => None,
        }
    }

    /// What a poll reports of the org's code.
    pub fn status(&self, org: OrgId, id: u128) -> (r: Option<LinkCodeStatus>)
        ensures
            exists|t: Timestamp|
                #![trigger t.wf()]
                t.wf() && r == (match index_where(self@, row_of(org, id)) {
                    Some(i) => Some(self@[i].status_at(t)),
                    None => None,
                }),
    {
        let t = now();
        self.status_at(org, id, t)
    }

    /// Claims at `now` a live code of `purpose` by hash; `None` = unknown,
    /// expired, revoked, or already claimed.
    pub fn consume_at(&mut self, purpose: LinkPurpose, code_hash: &str, now: Timestamp) -> (r:
        Option<ConsumedLink>)
        ensures
            claimed(old(self)@, final(self)@, r, claimable(purpose, code_hash@, now), now),
    {
        let live = |r: &LinkRow| -> (b: bool)
            ensures
                b == (r.code_hash@ == code_hash@ && r.purpose == purpose && r.is_live(now)),
        { str_eq(r.code_hash.as_str(), code_hash) && r.purpose == purpose && r.live(now) };
        match position(&self.rows, live, Ghost(claimable(purpose, code_hash@, now))) {
            Some(i) => {
                let link = self.rows[i].to_link();
                self.rows[i].consumed_at = Some(now);
                Some(link)
            },
            None => None,
        }
    }

    /// Claims a live code of `purpose` by hash.
    pub fn consume(&mut self, purpose: LinkPurpose, code_hash: &str) -> (r: Option<ConsumedLink>)
        ensures
            exists|t: Timestamp|
                t.wf() && #[trigger] claimed(
                    old(self)@,
                    final(self)@,
                    r,
                    claimable(purpose, code_hash@, t),
                    t,
                ),
    {
        let t = now();
        self.consume_at(purpose, code_hash, t)
    }

    /// Claims at `now` a live code by row id — the variant for a dance through
    /// which only the id travelled.
    pub fn consume_by_id_at(&mut self, id: u128, now: Timestamp) -> (r: Option<ConsumedLink>)
        ensures
            claimed(old(self)@, final(self)@, r, claimable_by_id(id, now), now),
    {
        let live = |r: &LinkRow| -> (b: bool)
            ensures
                b == (r.id == id && r.is_live(now)),
        { r.id == id && r.live(now) };
        match position(&self.rows, live, Ghost(claimable_by_id(id, now))) {
            Some(i) => {
                let link = self.rows[i].to_link();
                self.rows[i].consumed_at = Some(now);
                Some(link)
            },
            None => None,
        }
    }

    /// Claims a live code by row id.
    pub fn consume_by_id(&mut self, id: u128) -> (r: Option<ConsumedLink>)
        ensures
            exists|t: Timestamp|
                t.wf() && #[trigger] claimed(
                    old(self)@,
                    final(self)@,
                    r,
                    claimable_by_id(id, t),
                    t,
                ),
    {
        let t = now();
        self.consume_by_id_at(id, t)
    }

    /// Un-claim a consumed code whose channel create failed, so the link
    /// survives a transient error (quota, validation) instead of burning.
    pub fn restore(&mut self, id: u128)
        ensures
            final(self)@ == (match index_where(old(self)@, restorable(id)) {
                Some(i) => old(self)@.update(i, LinkRow { consumed_at: None, ..old(self)@[i] }),
                None => old(self)@,
            }),
    {
        let open = |r: &LinkRow| -> (b: bool)
            ensures
                b == (r.id == id && r.channel_id is None),
        { r.id == id && r.channel_id.is_none() };
        if let Some(i) = position(&self.rows, open, Ghost(restorable(id))) {
            self.rows[i].consumed_at = None;
        }
    }

    /// Record the channel a consume produced; flips the poll to `Consumed`.
    pub fn attach_channel(&mut self, id: u128, channel_id: u128)
        ensures
            final(self)@ == (match index_where(old(self)@, |r: LinkRow| r.id == id) {
                Some(i) => old(self)@.update(
                    i,
                    LinkRow { channel_id: Some(channel_id), ..old(self)@[i] },
                ),
                None => old(self)@,
            }),
    {
        let same = |r: &LinkRow| -> (b: bool)
            ensures
                b == (r.id == id),
        { r.id == id };
        if let Some(i) = position(&self.rows, same, Ghost(|r: LinkRow| r.id == id)) {
            self.rows[i].channel_id = Some(channel_id);
        }
    }

    /// Looks a live code up at `now` without claiming it; `None` = unknown,
    /// expired, revoked, or consumed.
    pub fn peek_at(&self, purpose: LinkPurpose, code_hash: &str, now: Timestamp) -> (r: Option<
        ConsumedLink,
    >)
        ensures
            match index_where(self@, claimable(purpose, code_hash@, now)) {
                Some(i) => r matches Some(link) && link.is_of(self@[i]),
                None => r is None,
            },
    {
        let live = |r: &LinkRow| -> (b: bool)
            ensures
                b == (r.code_hash@ == code_hash@ && r.purpose == purpose && r.is_live(now)),
        { str_eq(r.code_hash.as_str(), code_hash) && r.purpose == purpose && r.live(now) };
        match position(&self.rows, live, Ghost(claimable(purpose, code_hash@, now))) {
            Some(i) => Some(self.rows[i].to_link()),
            None => None,
        }
    }

    /// Looks a live code up without claiming it.
    pub fn peek(&self, purpose: LinkPurpose, code_hash: &str) -> (r: Option<ConsumedLink>)
        ensures
            exists|t: Timestamp|
                #![trigger t.wf()]
                t.wf() && match index_where(self@, claimable(purpose, code_hash@, t)) {
                    Some(i) => r matches Some(link) && link.is_of(self@[i]),
                    None => r is None,
                },
    {
        let t = now();
        self.peek_at(purpose, code_hash, t)
    }

    /// Poll at `now` by code hash for the public connect page — possession of the
    /// code is the authority, so no org scoping. `None` = unknown code.
    pub fn status_by_hash_at(&self, purpose: LinkPurpose, code_hash: &str, now: Timestamp) -> (r:
        Option<LinkCodeStatus>)
        ensures
            r == (match index_where(
                self@,
                |r: LinkRow| r.code_hash@ == code_hash@ && r.purpose == purpose,
            ) {
                Some(i) => Some(self@[i].status_at(now)),
                None => None,
            }),
    {
        let same = |r: &LinkRow| -> (b: bool)
            ensures
                b == (r.code_hash@ == code_hash@ && r.purpose == purpose),
        { str_eq(r.code_hash.as_str(), code_hash) && r.purpose == purpose };
        match position(
            &self.rows,
            same,
            Ghost(|r: LinkRow| r.code_hash@ == code_hash@ && r.purpose == purpose),
        ) {
            Some(i) => Some(self.rows[i].status(now)),
            None => None,
        }
    }

    /// Poll by code hash for the public connect page.
    pub fn status_by_hash(&self, purpose: LinkPurpose, code_hash: &str) -> (r: Option<
        LinkCodeStatus,
    >)
        ensures
            exists|t: Timestamp|
                #![trigger t.wf()]
                t.wf() && r == (match index_where(
                    self@,
                    |r: LinkRow| r.code_hash@ == code_hash@ && r.purpose == purpose,
                ) {
                    Some(i) => Some(self@[i].status_at(t)),
                    None => None,
                }),
    {
        let t = now();
        self.status_by_hash_at(purpose, code_hash, t)
    }

    /// Delegate links of the org as they stand at `now`, newest first.
    pub fn list_delegates_at(&self, org: OrgId, now: Timestamp) -> (out: Vec<DelegateRow>)
        ensures
            lists_delegates(out@, self@, org, now),
    {
        let mine = |r: &LinkRow| -> (b: bool)
            ensures
                b == (r.org == org && r.purpose == LinkPurpose::Delegate),
        { r.org == org && r.purpose == LinkPurpose::Delegate };
        let hits = select(&self.rows, mine, Ghost(is_delegate_of(org)));
        let le = |a: &LinkRow, b: &LinkRow| -> (r: bool)
            ensures
                r == (a.created_at.nanos >= b.created_at.nanos),
        { a.created_at.nanos >= b.created_at.nanos };
        let sorted = stable_sort(hits, le, Ghost(newest_link_first()));
        let mut out: Vec<DelegateRow> = Vec::new();
        let mut i: usize = 0;
        while i < sorted.len()
            invariant
                i <= sorted@.len(),
                out@.len() == i,
                forall|k: int| 0 <= k < i ==> lists(#[trigger] out@[k], sorted@[k], now),
            decreases sorted.len() - i,
        {
            let row = &sorted[i];
            out.push(
                DelegateRow {
                    id: row.id,
                    channel_name: opt_clone(&row.channel_name),
                    kind_hint: opt_clone(&row.kind_hint),
                    created_at: row.created_at,
                    expires_at: row.expires_at,
                    status: row.status(now),
                },
            );
            i += 1;
        }
        out
    }

    /// Delegate links of the org, newest first.
    pub fn list_delegates(&self, org: OrgId) -> (out: Vec<DelegateRow>)
        ensures
            exists|t: Timestamp| t.wf() && #[trigger] lists_delegates(out@, self@, org, t),
    {
        let t = now();
        self.list_delegates_at(org, t)
    }

    /// Revoke an unconsumed delegate link at `now`; `false` = unknown, foreign, or
    /// already consumed/revoked.
    pub fn revoke_at(&mut self, org: OrgId, id: u128, now: Timestamp) -> (r: bool)
        ensures
            revoked(old(self)@, final(self)@, r, org, id, now),
    {
        let open = |r: &LinkRow| -> (b: bool)
            ensures
                b == (r.id == id && r.org == org && r.purpose == LinkPurpose::Delegate
                    && r.consumed_at is None && r.revoked_at is None),
        {
            r.id == id && r.org == org && r.purpose == LinkPurpose::Delegate
                && r.consumed_at.is_none() && r.revoked_at.is_none()
        };
        match position(&self.rows, open, Ghost(revocable(org, id))) {
            Some(i) => {
                self.rows[i].revoked_at = Some(now);
                true
            },
            None => false,
        }
    }

    /// Revoke an unconsumed delegate link.
    pub fn revoke(&mut self, org: OrgId, id: u128) -> (r: bool)
        ensures
            exists|t: Timestamp|
                t.wf() && #[trigger] revoked(old(self)@, final(self)@, r, org, id, t),
    {
        let t = now();
        self.revoke_at(org, id, t)
    }
}

/// A code is single-use: once it has been claimed, no later claim of the same
/// purpose and hash finds it, as long as no other row shares both.
pub proof fn law_consume_is_single_use(
    before: Seq<LinkRow>,
    after: Seq<LinkRow>,
    link: Option<ConsumedLink>,
    purpose: LinkPurpose,
    code_hash: Seq<char>,
    first: Timestamp,
    second: Timestamp,
)
    requires
        claimed(before, after, link, claimable(purpose, code_hash, first), first),
        link is Some,
        forall|i: int, j: int|
            0 <= i < j < before.len() ==> !((#[trigger] before[i]).code_hash@ == (
            #[trigger] before[j]).code_hash@ && before[i].purpose == before[j].purpose),
    ensures
        index_where(after, claimable(purpose, code_hash, second)) is None,
{
    lemma_index_where(before, claimable(purpose, code_hash, first));
    let i = index_where(before, claimable(purpose, code_hash, first)).unwrap();
    assert forall|j: int| 0 <= j < after.len() implies !claimable(purpose, code_hash, second)(
        #[trigger] after[j],
    ) by {
        if j != i {
            assert(after[j] == before[j]);
            if j < i {
                assert(before[j].code_hash@ != before[i].code_hash@ || before[j].purpose
                    != before[i].purpose);
            } else {
                assert(before[i].code_hash@ != before[j].code_hash@ || before[i].purpose
                    != before[j].purpose);
            }
        }
    }
    lemma_index_where_none(after, claimable(purpose, code_hash, second));
}

/// A claimed code is dead for good: the claim names the code's own org, no later claim,
/// of whatever purpose or by id, finds the code or changes anything, and a poll reads
/// `Expired` as long as no channel was attached. The code's hash is no other's; what is said
/// of its id holds where that is no other's either.
pub proof fn law_a_claimed_code_is_dead(
    before: Seq<LinkRow>,
    after: Seq<LinkRow>,
    link: ConsumedLink,
    purpose: LinkPurpose,
    code_hash: Seq<char>,
    first: Timestamp,
    other: LinkPurpose,
    second: Timestamp,
    last: Seq<LinkRow>,
    again: Option<ConsumedLink>,
)
    requires
        claimed(before, after, Some(link), claimable(purpose, code_hash, first), first),
        forall|i: int, j: int|
            0 <= i < j < before.len() ==> !((#[trigger] before[i]).code_hash@ == code_hash && (
            #[trigger] before[j]).code_hash@ == code_hash),
        forall|i: int|
            0 <= i < before.len() && (#[trigger] before[i]).code_hash@ == code_hash
                ==> before[i].channel_id is None,
        claimed(after, last, again, claimable(other, code_hash, second), second),
    ensures
        forall|i: int|
            0 <= i < before.len() && (#[trigger] before[i]).code_hash@ == code_hash
                ==> link.is_of(before[i]),
        again is None,
        last == after,
        (forall|i: int|
            0 <= i < before.len() && (#[trigger] before[i]).id == link.id ==> before[i].code_hash@
                == code_hash) ==> {
            &&& index_where(after, claimable_by_id(link.id, second)) is None
            &&& index_where(after, row_of(link.org_id, link.id)) matches Some(i)
                && after[i].status_at(second) == LinkCodeStatus::Expired
        },
{
    lemma_index_where(before, claimable(purpose, code_hash, first));
    let i = index_where(before, claimable(purpose, code_hash, first)).unwrap();
    assert(before[i].code_hash@ == code_hash);
    assert forall|j: int| 0 <= j < before.len() && j != i implies (
    #[trigger] before[j]).code_hash@ != code_hash && after[j] == before[j] by {
        if j < i {
            assert(!(before[j].code_hash@ == code_hash && before[i].code_hash@ == code_hash));
        } else {
            assert(!(before[i].code_hash@ == code_hash && before[j].code_hash@ == code_hash));
        }
    }
    assert forall|j: int| 0 <= j < after.len() implies !claimable(other, code_hash, second)(
        #[trigger] after[j],
    ) by {
        let b = before[j];
    }
    lemma_index_where_none(after, claimable(other, code_hash, second));
    if forall|k: int|
        0 <= k < before.len() && (#[trigger] before[k]).id == link.id ==> before[k].code_hash@
            == code_hash {
        assert forall|j: int| 0 <= j < after.len() implies !claimable_by_id(link.id, second)(
            #[trigger] after[j],
        ) && (j != i ==> !row_of(link.org_id, link.id)(after[j])) by {
            let b = before[j];
        }
        lemma_index_where_none(after, claimable_by_id(link.id, second));
        crate::collections::lemma_index_where_is(after, row_of(link.org_id, link.id), i);
    }
}

/// A claim yields a code of the purpose and hash it asked for, one that was live:
/// neither expired nor revoked nor claimed before.
pub proof fn law_claim_is_of_a_live_code(
    before: Seq<LinkRow>,
    after: Seq<LinkRow>,
    link: Option<ConsumedLink>,
    purpose: LinkPurpose,
    code_hash: Seq<char>,
    now: Timestamp,
)
    requires
        claimed(before, after, link, claimable(purpose, code_hash, now), now),
        link is Some,
    ensures
        exists|i: int|
            0 <= i < before.len() && link.unwrap().is_of(#[trigger] before[i])
                && before[i].code_hash@ == code_hash && before[i].purpose == purpose
                && before[i].is_live(now),
{
    lemma_index_where(before, claimable(purpose, code_hash, now));
    let i = index_where(before, claimable(purpose, code_hash, now)).unwrap();
    assert(link.unwrap().is_of(before[i]));
}

/// Restoring a claimed row that left no channel undoes the claim.
pub proof fn law_restore_undoes_a_claim(
    before: Seq<LinkRow>,
    after: Seq<LinkRow>,
    link: Option<ConsumedLink>,
    p: spec_fn(LinkRow) -> bool,
    now: Timestamp,
)
    requires
        claimed(before, after, link, p, now),
        link is Some,
        index_where(before, p) matches Some(i) && before[i].consumed_at is None
            && before[i].channel_id is None,
        forall|i: int, j: int|
            0 <= i < j < before.len() ==> (#[trigger] before[i]).id != (#[trigger] before[j]).id,
    ensures
        index_where(after, restorable(link.unwrap().id)) == index_where(before, p),
        ({
            let i = index_where(after, restorable(link.unwrap().id)).unwrap();
            after.update(i, LinkRow { consumed_at: None, ..after[i] }) == before
        }),
{
    lemma_index_where(before, p);
    let i = index_where(before, p).unwrap();
    let id = link.unwrap().id;
    assert forall|j: int| 0 <= j < i implies !restorable(id)(#[trigger] after[j]) by {
        assert(before[j].id != before[i].id);
    }
    crate::collections::lemma_index_where_is(after, restorable(id), i);
    assert(after.update(i, LinkRow { consumed_at: None, ..after[i] }) =~= before);
}

/// A revoked code is never live again.
pub proof fn law_revoked_is_dead(row: LinkRow, now: Timestamp)
    requires
        row.revoked_at is Some,
    ensures
        !row.is_live(now),
        row.status_at(now) != LinkCodeStatus::Pending,
{
}

/// An org never holds more live codes of a purpose than its cap, if it did not
/// before: a mint adds one only below the cap.
pub proof fn law_mint_keeps_the_cap(
    before: Seq<LinkRow>,
    after: Seq<LinkRow>,
    outcome: MintOutcome,
    org: OrgId,
    purpose: LinkPurpose,
    code_hash: Seq<char>,
    channel_name: Option<Seq<char>>,
    kind_hint: Option<Seq<char>>,
    expires_at: Timestamp,
    max_outstanding: i64,
    now: Timestamp,
    id: u128,
)
    requires
        minted(
            before,
            after,
            outcome,
            org,
            purpose,
            code_hash,
            channel_name,
            kind_hint,
            expires_at,
            max_outstanding,
            now,
            id,
        ),
    ensures
        outcome is Created ==> outstanding(after, org, purpose, now) <= max_outstanding,
        outcome is LimitReached ==> outstanding(after, org, purpose, now) >= max_outstanding,
{
    if outcome is Created {
        let kept = after.drop_last();
        lemma_filter_push(kept, after.last(), counts(org, purpose, now));
        assert(after =~= kept.push(after.last()));
    }
}

proof fn lemma_filter_twice(rows: Seq<LinkRow>, org: OrgId, now: Timestamp)
    ensures
        rows.filter(survives(org, now)).filter(|r: LinkRow| r.org != org) == rows.filter(
            |r: LinkRow| r.org != org,
        ),
    decreases rows.len(),
{
    let others = |r: LinkRow| r.org != org;
    reveal(Seq::filter);
    if rows.len() > 0 {
        let front = rows.drop_last();
        lemma_filter_twice(front, org, now);
        lemma_filter_push(front, rows.last(), survives(org, now));
        lemma_filter_push(front, rows.last(), others);
        lemma_filter_push(front.filter(survives(org, now)), rows.last(), others);
        assert(rows =~= front.push(rows.last()));
    }
}

/// Minting for one org leaves every other org's codes as they were.
pub proof fn law_mint_leaves_other_orgs_alone(
    before: Seq<LinkRow>,
    after: Seq<LinkRow>,
    outcome: MintOutcome,
    org: OrgId,
    purpose: LinkPurpose,
    code_hash: Seq<char>,
    channel_name: Option<Seq<char>>,
    kind_hint: Option<Seq<char>>,
    expires_at: Timestamp,
    max_outstanding: i64,
    now: Timestamp,
    id: u128,
)
    requires
        minted(
            before,
            after,
            outcome,
            org,
            purpose,
            code_hash,
            channel_name,
            kind_hint,
            expires_at,
            max_outstanding,
            now,
            id,
        ),
    ensures
        after.filter(|r: LinkRow| r.org != org) == before.filter(|r: LinkRow| r.org != org),
{
    let others = |r: LinkRow| r.org != org;
    lemma_filter_twice(before, org, now);
    if outcome is Created {
        let kept = after.drop_last();
        lemma_filter_push(kept, after.last(), others);
        assert(after =~= kept.push(after.last()));
    }
}

/// A poll reports a channel exactly where the code was claimed and left one, and `Pending`
/// exactly where it was neither claimed nor revoked and has time left.
pub proof fn law_what_a_poll_reports(
    consumed_at: Option<Timestamp>,
    expires_at: Timestamp,
    channel_id: Option<u128>,
    revoked_at: Option<Timestamp>,
    now: Timestamp,
    c: u128,
)
    ensures
        status_of(consumed_at, expires_at, channel_id, revoked_at, now) == (
        LinkCodeStatus::Consumed { channel_id: c }) <==> consumed_at is Some && channel_id == Some(
            c,
        ),
        status_of(consumed_at, expires_at, channel_id, revoked_at, now) == LinkCodeStatus::Pending
            <==> consumed_at is None && revoked_at is None && now.nanos < expires_at.nanos,
{
}

/// A mint is refused exactly where the org's live codes of the purpose, those neither claimed
/// nor revoked nor expired, are as many as the cap. One that is not adds the code as it was
/// asked for, unclaimed, behind what was there. Either way exactly the org's expired codes
/// that left no channel are gone.
pub proof fn law_a_mint_adds_the_code_asked_for(
    before: Seq<LinkRow>,
    after: Seq<LinkRow>,
    outcome: MintOutcome,
    org: OrgId,
    purpose: LinkPurpose,
    code_hash: Seq<char>,
    channel_name: Option<Seq<char>>,
    kind_hint: Option<Seq<char>>,
    expires_at: Timestamp,
    max_outstanding: i64,
    now: Timestamp,
    id: u128,
    x: LinkRow,
)
    requires
        minted(
            before,
            after,
            outcome,
            org,
            purpose,
            code_hash,
            channel_name,
            kind_hint,
            expires_at,
            max_outstanding,
            now,
            id,
        ),
    ensures
        outcome is LimitReached <==> before.filter(
            |r: LinkRow|
                r.org == org && r.purpose == purpose && r.consumed_at is None && r.revoked_at
                    is None && r.expires_at.nanos > now.nanos,
        ).len() >= max_outstanding,
        outcome matches MintOutcome::Created(code) ==> {
            let row = after.last();
            &&& after.len() > 0
            &&& code.id == id && code.expires_at == expires_at
            &&& row.id == id && row.org == org && row.purpose == purpose
            &&& row.code_hash@ == code_hash
            &&& opt_view(row.channel_name) == channel_name
            &&& opt_view(row.kind_hint) == kind_hint
            &&& row.created_at == now && row.expires_at == expires_at
            &&& row.consumed_at is None && row.revoked_at is None && row.channel_id is None
        },
        ({
            let kept = if outcome is Created {
                after.drop_last()
            } else {
                after
            };
            kept.contains(x) <==> before.contains(x) && !(x.org == org && x.expires_at.nanos
                <= now.nanos && x.channel_id is None)
        }),
{
    let live = |r: LinkRow|
        r.org == org && r.purpose == purpose && r.consumed_at is None && r.revoked_at is None
            && r.expires_at.nanos > now.nanos;
    assert(live =~= counts(org, purpose, now));
    lemma_filter_narrows(before, survives(org, now), live);
    lemma_filter_members(before, survives(org, now));
}

/// A claim by hash or by id takes the first live code it names, marks that one claimed at
/// `now` and changes nothing else; its link carries the code's id, org, name and hint. Without
/// such a code there is no link and no change.
pub proof fn law_a_claim_marks_its_code(
    before: Seq<LinkRow>,
    after: Seq<LinkRow>,
    r: Option<ConsumedLink>,
    purpose: LinkPurpose,
    code_hash: Seq<char>,
    id: u128,
    by_id: bool,
    now: Timestamp,
    i: int,
)
    requires
        claimed(
            before,
            after,
            r,
            if by_id {
                claimable_by_id(id, now)
            } else {
                claimable(purpose, code_hash, now)
            },
            now,
        ),
        0 <= i <= before.len(),
        forall|j: int|
            0 <= j < i ==> {
                let b = #[trigger] before[j];
                ||| b.consumed_at is Some
                ||| b.revoked_at is Some
                ||| b.expires_at.nanos <= now.nanos
                ||| by_id && b.id != id
                ||| !by_id && (b.code_hash@ != code_hash || b.purpose != purpose)
            },
        i < before.len() ==> {
            let b = before[i];
            &&& b.consumed_at is None && b.revoked_at is None && b.expires_at.nanos > now.nanos
            &&& by_id ==> b.id == id
            &&& !by_id ==> b.code_hash@ == code_hash && b.purpose == purpose
        },
    ensures
        i == before.len() ==> r is None && after == before,
        i < before.len() ==> {
            let (a, b) = (after[i], before[i]);
            &&& r matches Some(link)
            &&& link.id == b.id && link.org_id == b.org
            &&& link.channel_name == b.channel_name && link.kind_hint == b.kind_hint
            &&& after.len() == before.len()
            &&& a.consumed_at == Some(now)
            &&& a.id == b.id && a.org == b.org && a.purpose == b.purpose
            &&& a.code_hash == b.code_hash && a.channel_name == b.channel_name
            &&& a.kind_hint == b.kind_hint && a.created_at == b.created_at
            &&& a.expires_at == b.expires_at && a.revoked_at == b.revoked_at
            &&& a.channel_id == b.channel_id
            &&& forall|j: int|
                0 <= j < before.len() && j != i ==> #[trigger] after[j] == before[j]
        },
{
    let p = if by_id {
        claimable_by_id(id, now)
    } else {
        claimable(purpose, code_hash, now)
    };
    if i < before.len() {
        lemma_index_where_is(before, p, i);
    } else {
        lemma_index_where_none(before, p);
    }
}

/// A code is un-claimed by its id, and only where it left no channel.
pub proof fn law_a_restore_finds_what_left_no_channel(rows: Seq<LinkRow>, id: u128, i: int)
    requires
        0 <= i <= rows.len(),
        forall|j: int| 0 <= j < i ==> (#[trigger] rows[j]).id != id || rows[j].channel_id is Some,
        i < rows.len() ==> rows[i].id == id && rows[i].channel_id is None,
    ensures
        index_where(rows, restorable(id)) == (if i < rows.len() {
            Some(i)
        } else {
            None
        }),
{
    if i < rows.len() {
        lemma_index_where_is(rows, restorable(id), i);
    } else {
        lemma_index_where_none(rows, restorable(id));
    }
}

/// A poll by org and id finds the first code that has both.
pub proof fn law_a_poll_finds_the_orgs_code(rows: Seq<LinkRow>, org: OrgId, id: u128, i: int)
    requires
        0 <= i <= rows.len(),
        forall|j: int| 0 <= j < i ==> (#[trigger] rows[j]).id != id || rows[j].org != org,
        i < rows.len() ==> rows[i].id == id && rows[i].org == org,
    ensures
        index_where(rows, row_of(org, id)) == (if i < rows.len() {
            Some(i)
        } else {
            None
        }),
{
    if i < rows.len() {
        lemma_index_where_is(rows, row_of(org, id), i);
    } else {
        lemma_index_where_none(rows, row_of(org, id));
    }
}

/// Revoking marks the org's own delegate link with the id, where it was neither claimed nor
/// revoked, and nothing else; otherwise it answers no and changes nothing.
pub proof fn law_a_revoke_marks_its_link(
    before: Seq<LinkRow>,
    after: Seq<LinkRow>,
    r: bool,
    org: OrgId,
    id: u128,
    now: Timestamp,
    i: int,
)
    requires
        revoked(before, after, r, org, id, now),
        0 <= i <= before.len(),
        forall|j: int|
            0 <= j < i ==> {
                let b = #[trigger] before[j];
                ||| b.id != id
                ||| b.org != org
                ||| b.purpose != LinkPurpose::Delegate
                ||| b.consumed_at is Some
                ||| b.revoked_at is Some
            },
        i < before.len() ==> {
            let b = before[i];
            &&& b.id == id && b.org == org && b.purpose == LinkPurpose::Delegate
            &&& b.consumed_at is None && b.revoked_at is None
        },
    ensures
        i == before.len() ==> !r && after == before,
        i < before.len() ==> {
            let (a, b) = (after[i], before[i]);
            &&& r
            &&& after.len() == before.len()
            &&& a.revoked_at == Some(now)
            &&& a.id == b.id && a.org == b.org && a.purpose == b.purpose
            &&& a.code_hash == b.code_hash && a.channel_name == b.channel_name
            &&& a.kind_hint == b.kind_hint && a.created_at == b.created_at
            &&& a.expires_at == b.expires_at && a.consumed_at == b.consumed_at
            &&& a.channel_id == b.channel_id
            &&& forall|j: int|
                0 <= j < before.len() && j != i ==> #[trigger] after[j] == before[j]
        },
{
    if i < before.len() {
        lemma_index_where_is(before, revocable(org, id), i);
    } else {
        lemma_index_where_none(before, revocable(org, id));
    }
}

/// The list of delegate links shows each of the org's delegate links and no other code, newest
/// first, with what the code holds.
pub proof fn law_the_list_shows_the_orgs_delegates(
    out: Seq<DelegateRow>,
    rows: Seq<LinkRow>,
    org: OrgId,
    now: Timestamp,
)
    requires
        lists_delegates(out, rows, org, now),
    ensures
        out.len() == rows.filter(
            |r: LinkRow| r.org == org && r.purpose == LinkPurpose::Delegate,
        ).len(),
        forall|i: int|
            0 <= i < rows.len() && (#[trigger] rows[i]).org == org && rows[i].purpose
                == LinkPurpose::Delegate ==> exists|k: int|
                0 <= k < out.len() && (#[trigger] out[k]).id == rows[i].id && out[k].created_at
                    == rows[i].created_at && out[k].channel_name == rows[i].channel_name,
        forall|k: int|
            0 <= k < out.len() ==> exists|i: int|
                0 <= i < rows.len() && {
                    let (r, d) = (#[trigger] rows[i], #[trigger] out[k]);
                    &&& r.org == org && r.purpose == LinkPurpose::Delegate
                    &&& d.id == r.id && d.channel_name == r.channel_name
                    &&& d.kind_hint == r.kind_hint && d.created_at == r.created_at
                    &&& d.expires_at == r.expires_at
                    &&& d.status == status_of(
                        r.consumed_at,
                        r.expires_at,
                        r.channel_id,
                        r.revoked_at,
                        now,
                    )
                },
        forall|i: int, j: int|
            0 <= i < j < out.len() ==> (#[trigger] out[i]).created_at.nanos >= (
            #[trigger] out[j]).created_at.nanos,
{
    let p = is_delegate_of(org);
    let le = newest_link_first();
    let sorted = stable_sorted(rows.filter(p), le);
    assert(p =~= (|r: LinkRow| r.org == org && r.purpose == LinkPurpose::Delegate));
    lemma_listing(rows, p, le, 0, 0);
    lemma_stable_sorted(rows.filter(p), le);
    assert forall|i: int|
        0 <= i < rows.len() && (#[trigger] rows[i]).org == org && rows[i].purpose
            == LinkPurpose::Delegate implies exists|k: int|
        0 <= k < out.len() && (#[trigger] out[k]).id == rows[i].id && out[k].created_at
            == rows[i].created_at && out[k].channel_name == rows[i].channel_name by {
        assert(rows.contains(rows[i]));
        assert(sorted.contains(rows[i]));
        let k = sorted.index_of(rows[i]);
        assert(lists(out[k], sorted[k], now));
    }
    assert forall|k: int| 0 <= k < out.len() implies exists|i: int|
        0 <= i < rows.len() && {
            let (r, d) = (#[trigger] rows[i], #[trigger] out[k]);
            &&& r.org == org && r.purpose == LinkPurpose::Delegate
            &&& d.id == r.id && d.channel_name == r.channel_name
            &&& d.kind_hint == r.kind_hint && d.created_at == r.created_at
            &&& d.expires_at == r.expires_at
            &&& d.status == status_of(
                r.consumed_at,
                r.expires_at,
                r.channel_id,
                r.revoked_at,
                now,
            )
        } by {
        assert(lists(out[k], sorted[k], now));
        assert(sorted.contains(sorted[k]));
        let i = rows.index_of(sorted[k]);
        assert(rows[i] == sorted[k]);
    }
    assert forall|i: int, j: int| 0 <= i < j < out.len() implies (
    #[trigger] out[i]).created_at.nanos >= (#[trigger] out[j]).created_at.nanos by {
        assert(le(sorted[i], sorted[j]));
        assert(lists(out[i], sorted[i], now) && lists(out[j], sorted[j], now));
    }
}

} // verus!
