//! `telegram_link_codes` — single-use codes binding a Telegram chat to an org
//! through the central bot.
//!
//! Mint is org-scoped and capped. Consume is deliberately *not* org-scoped:
//! the webhook has no tenant context — the code row IS the org authority.

use vstd::prelude::*;

use crate::collections::{
    count_where, index_where, lemma_filter_members, lemma_filter_push, lemma_filter_narrows,
    lemma_index_where, lemma_index_where_is, lemma_index_where_none, position, retain,
};
use crate::ids::{fresh_id, OrgId, UserId};
use crate::strings::{opt_clone, opt_owned, opt_str_view, opt_view, owned, str_eq};
use crate::time::{now, Timestamp};

verus! {

/// A code that was minted.
#[derive(Debug, Clone, Copy, PartialEq, Eq, Structural)]
pub struct LinkCode {
    pub id: u128,
    pub expires_at: Timestamp,
}

#[derive(Debug, Clone, Copy, PartialEq, Eq, Structural)]
pub enum MintOutcome {
    Created(LinkCode),
    /// The org already holds the maximum of outstanding unconsumed codes.
    LimitReached,
}

/// What the status poll reports. A consumed row whose channel was deleted (or
/// whose channel create failed) reads as `Expired`: the code can never link
/// again, so the form should mint a fresh one.
#[derive(Debug, Clone, Copy, PartialEq, Eq, Structural)]
pub enum LinkCodeStatus {
    Pending,
    Consumed { channel_id: u128 },
    Expired,
}

/// The org authority recovered from a consumed code — the only place the
/// webhook may take a tenant identity from.
#[derive(Debug)]
pub struct ConsumedLink {
    pub id: u128,
    pub org_id: OrgId,
    pub channel_name: Option<String>,
}

/// What a poll reports of a row.
pub open spec fn status_of(
    consumed_at: Option<Timestamp>,
    expires_at: Timestamp,
    channel_id: Option<u128>,
    now: Timestamp,
) -> LinkCodeStatus {
    if consumed_at is Some {
        match channel_id {
            Some(id) => LinkCodeStatus::Consumed { channel_id: id },
            None => LinkCodeStatus::Expired,
        }
    } else if expires_at.nanos <= now.nanos {
        LinkCodeStatus::Expired
    } else {
        LinkCodeStatus::Pending
    }
}

/// Shared by every store so they can't drift.
pub fn link_status(
    consumed_at: Option<Timestamp>,
    expires_at: Timestamp,
    channel_id: Option<u128>,
    now: Timestamp,
) -> (r: LinkCodeStatus)
    ensures
        r == status_of(consumed_at, expires_at, channel_id, now),
{
    match (consumed_at, channel_id) {
        (Some(_), Some(channel_id)) => LinkCodeStatus::Consumed { channel_id },
        // Claimed but no channel materialised: dead either way.
        (Some(_), None) => LinkCodeStatus::Expired,
        (None, _) => {
            if expires_at.nanos <= now.nanos {
                LinkCodeStatus::Expired
            } else {
                LinkCodeStatus::Pending
            }
        },
    }
}

/// One stored code.
#[derive(Debug)]
pub struct LinkRow {
    pub id: u128,
    pub org: OrgId,
    pub code_hash: String,
    pub channel_name: Option<String>,
    pub expires_at: Timestamp,
    pub consumed_at: Option<Timestamp>,
    pub channel_id: Option<u128>,
}

impl LinkRow {
    /// The code can still be claimed.
    pub open spec fn is_live(self, now: Timestamp) -> bool {
        self.consumed_at is None && self.expires_at.nanos > now.nanos
    }

    /// The code's life is over and it left no channel.
    pub open spec fn is_spent(self, org: OrgId, now: Timestamp) -> bool {
        self.org == org && self.expires_at.nanos <= now.nanos && self.channel_id is None
    }

    /// What a poll reports of the code.
    pub open spec fn status_at(self, now: Timestamp) -> LinkCodeStatus {
        status_of(self.consumed_at, self.expires_at, self.channel_id, now)
    }
}

impl ConsumedLink {
    /// The link carries exactly what this row holds.
    pub open spec fn is_of(self, row: LinkRow) -> bool {
        &&& self.id == row.id
        &&& self.org_id == row.org
        &&& self.channel_name == row.channel_name
    }
}

/// The row is a live code with this hash.
pub open spec fn claimable(code_hash: Seq<char>, now: Timestamp) -> spec_fn(LinkRow) -> bool {
    |r: LinkRow| r.code_hash@ == code_hash && r.is_live(now)
}

/// The row survives a mint's purge.
pub open spec fn survives(org: OrgId, now: Timestamp) -> spec_fn(LinkRow) -> bool {
    |r: LinkRow| !r.is_spent(org, now)
}

/// The row counts against the org's cap.
pub open spec fn counts(org: OrgId, now: Timestamp) -> spec_fn(LinkRow) -> bool {
    |r: LinkRow| r.org == org && r.is_live(now)
}

/// How many live codes an org holds.
pub open spec fn outstanding(rows: Seq<LinkRow>, org: OrgId, now: Timestamp) -> nat {
    rows.filter(counts(org, now)).len()
}

/// What minting a code at `now` under the id `id` does to the rows and returns.
pub open spec fn minted(
    before: Seq<LinkRow>,
    after: Seq<LinkRow>,
    outcome: MintOutcome,
    org: OrgId,
    code_hash: Seq<char>,
    channel_name: Option<Seq<char>>,
    expires_at: Timestamp,
    max_outstanding: i64,
    now: Timestamp,
    id: u128,
) -> bool {
    let kept = before.filter(survives(org, now));
    if outstanding(kept, org, now) >= max_outstanding {
        outcome == MintOutcome::LimitReached && after == kept
    } else {
        &&& outcome == MintOutcome::Created(LinkCode { id, expires_at })
        &&& after.len() == kept.len() + 1
        &&& after.drop_last() == kept
        &&& {
            let row = after.last();
            &&& row.id == id
            &&& row.org == org
            &&& row.code_hash@ == code_hash
            &&& opt_view(row.channel_name) == channel_name
            &&& row.expires_at == expires_at
            &&& row.consumed_at is None
            &&& row.channel_id is None
        }
    }
}

/// What claiming a code by hash at `now` does to the rows and returns.
pub open spec fn claimed(
    before: Seq<LinkRow>,
    after: Seq<LinkRow>,
    r: Option<ConsumedLink>,
    code_hash: Seq<char>,
    now: Timestamp,
) -> bool {
    match index_where(before, claimable(code_hash, now)) {
        Some(i) => {
            &&& after == before.update(i, LinkRow { consumed_at: Some(now), ..before[i] })
            &&& r matches Some(link) && link.is_of(before[i])
        },
        None => after == before && r is None,
    }
}

/// Link codes in memory.
#[derive(Debug)]
pub struct InMemoryTelegramLinkCodeStore {
    rows: Vec<LinkRow>,
}

impl View for InMemoryTelegramLinkCodeStore {
    type V = Seq<LinkRow>;

    closed spec fn view(&self) -> Seq<LinkRow> {
        self.rows@
    }
}

impl InMemoryTelegramLinkCodeStore {
    pub fn new() -> (r: Self)
        ensures
            r@ == Seq::<LinkRow>::empty(),
    {
        InMemoryTelegramLinkCodeStore { rows: Vec::new() }
    }

    /// Mints a code at `now` under the id `id`, capped at `max_outstanding` live
    /// codes per org. The org's codes that expired without a channel are purged
    /// first.
    pub fn mint_at(
        &mut self,
        org: OrgId,
        code_hash: &str,
        channel_name: Option<&str>,
        expires_at: Timestamp,
        max_outstanding: i64,
        now: Timestamp,
        id: u128,
    ) -> (r: MintOutcome)
        ensures
            minted(
                old(self)@,
                final(self)@,
                r,
                org,
                code_hash@,
                opt_str_view(channel_name),
                expires_at,
                max_outstanding,
                now,
                id,
            ),
    {
        let keep = |r: &LinkRow| -> (b: bool)
            ensures
                b == !r.is_spent(org, now),
        { !(r.org == org && r.expires_at.nanos <= now.nanos && r.channel_id.is_none()) };
        retain(&mut self.rows, keep, Ghost(survives(org, now)));
        let live = |r: &LinkRow| -> (b: bool)
            ensures
                b == (r.org == org && r.is_live(now)),
        { r.org == org && r.consumed_at.is_none() && r.expires_at.nanos > now.nanos };
        let held: usize = count_where(&self.rows, live, Ghost(counts(org, now)));
        if held as i128 >= max_outstanding as i128 {
            return MintOutcome::LimitReached;
        }
        let ghost kept = self.rows@;
        self.rows.push(
            LinkRow {
                id,
                org,
                code_hash: owned(code_hash),
                channel_name: opt_owned(channel_name),
                expires_at,
                consumed_at: None,
                channel_id: None,
            },
        );
        assert(self.rows@.drop_last() =~= kept);
        MintOutcome::Created(LinkCode { id, expires_at })
    }

    /// Mints a fresh code.
    pub fn mint(
        &mut self,
        org: OrgId,
        _created_by: Option<UserId>,
        code_hash: &str,
        channel_name: Option<&str>,
        expires_at: Timestamp,
        max_outstanding: i64,
    ) -> (r: MintOutcome)
        ensures
            exists|t: Timestamp, id: u128|
                t.wf() && #[trigger] minted(
                    old(self)@,
                    final(self)@,
                    r,
                    org,
                    code_hash@,
                    opt_str_view(channel_name),
                    expires_at,
                    max_outstanding,
                    t,
                    id,
                ),
    {
        let t = now();
        let id: u128 = fresh_id();
        self.mint_at(org, code_hash, channel_name, expires_at, max_outstanding, t, id)
    }

    /// What a poll at `now` reports of the org's code. `None` = no such code in
    /// this org.
    pub fn status_at(&self, org: OrgId, id: u128, now: Timestamp) -> (r: Option<LinkCodeStatus>)
        ensures
            r == (match index_where(self@, |r: LinkRow| r.org == org && r.id == id) {
                Some(i) => Some(self@[i].status_at(now)),
                None => None,
            }),
    {
        let same = |r: &LinkRow| -> (b: bool)
            ensures
                b == (r.org == org && r.id == id),
        { r.org == org && r.id == id };
        match position(&self.rows, same, Ghost(|r: LinkRow| r.org == org && r.id == id)) {
            Some(i) => {
                let row = &self.rows[i];
                Some(link_status(row.consumed_at, row.expires_at, row.channel_id, now))
            },
            None => None,
        }
    }

    /// What a poll reports of the org's code.
    pub fn status(&self, org: OrgId, id: u128) -> (r: Option<LinkCodeStatus>)
        ensures
            exists|t: Timestamp|
                #![trigger t.wf()]
                t.wf() && r == (match index_where(
                    self@,
                    |r: LinkRow| r.org == org && r.id == id,
                ) {
                    Some(i) => Some(self@[i].status_at(t)),
                    None => None,
                }),
    {
        let t = now();
        self.status_at(org, id, t)
    }

    /// Claims at `now` a live code by hash; `None` = unknown, expired, or already
    /// claimed.
    pub fn consume_at(&mut self, code_hash: &str, now: Timestamp) -> (r: Option<ConsumedLink>)
        ensures
            claimed(old(self)@, final(self)@, r, code_hash@, now),
    {
        let live = |r: &LinkRow| -> (b: bool)
            ensures
                b == (r.code_hash@ == code_hash@ && r.is_live(now)),
        {
            str_eq(r.code_hash.as_str(), code_hash) && r.consumed_at.is_none()
                && r.expires_at.nanos > now.nanos
        };
        match position(&self.rows, live, Ghost(claimable(code_hash@, now))) {
            Some(i) => {
                let link = ConsumedLink {
                    id: self.rows[i].id,
                    org_id: self.rows[i].org,
                    channel_name: opt_clone(&self.rows[i].channel_name),
                };
                self.rows[i].consumed_at = Some(now);
                Some(link)
            },
            None => None,
        }
    }

    /// Claims a live code by hash.
    pub fn consume(&mut self, code_hash: &str) -> (r: Option<ConsumedLink>)
        ensures
            exists|t: Timestamp|
                t.wf() && #[trigger] claimed(old(self)@, final(self)@, r, code_hash@, t),
    {
        let t = now();
        self.consume_at(code_hash, t)
    }

    /// Record the channel a consume produced; flips the poll to `Consumed`.
    pub fn attach_channel(&mut self, id: u128, channel_id: u128)
        ensures
            final(self)@ == (match index_where(old(self)@, |r: LinkRow| r.id == id) {
                Some(i) => old(self)@.update(
                    i,
                    LinkRow { channel_id: Some(channel_id), ..old(self)@[i] },
                ),
                None => old(self)@,
            }),
    {
        let same = |r: &LinkRow| -> (b: bool)
            ensures
                b == (r.id == id),
        { r.id == id };
        if let Some(i) = position(&self.rows, same, Ghost(|r: LinkRow| r.id == id)) {
            self.rows[i].channel_id = Some(channel_id);
        }
    }
}

/// A code is single-use: once it has been claimed, no later claim of the same
/// hash finds it, as long as no other row shares it, and it reads as `Expired`
/// until a channel is attached.
pub proof fn law_consume_is_single_use(
    before: Seq<LinkRow>,
    after: Seq<LinkRow>,
    link: Option<ConsumedLink>,
    code_hash: Seq<char>,
    first: Timestamp,
    second: Timestamp,
)
    requires
        claimed(before, after, link, code_hash, first),
        link is Some,
        forall|i: int, j: int|
            0 <= i < j < before.len() ==> (#[trigger] before[i]).code_hash@ != (
            #[trigger] before[j]).code_hash@,
    ensures
        index_where(after, claimable(code_hash, second)) is None,
        forall|i: int|
            0 <= i < after.len() && (#[trigger] after[i]).code_hash@ == code_hash
                && after[i].channel_id is None ==> after[i].status_at(second)
                == LinkCodeStatus::Expired,
{
    lemma_index_where(before, claimable(code_hash, first));
    let i = index_where(before, claimable(code_hash, first)).unwrap();
    assert forall|j: int| 0 <= j < after.len() implies !claimable(code_hash, second)(
        #[trigger] after[j],
    ) by {
        if j != i {
            assert(after[j] == before[j]);
            if j < i {
                assert(before[j].code_hash@ != before[i].code_hash@);
            } else {
                assert(before[i].code_hash@ != before[j].code_hash@);
            }
        }
    }
    lemma_index_where_none(after, claimable(code_hash, second));
}

/// A mint adds a code only below the cap, so an org's live codes stay within it.
pub proof fn law_mint_keeps_the_cap(
    before: Seq<LinkRow>,
    after: Seq<LinkRow>,
    outcome: MintOutcome,
    org: OrgId,
    code_hash: Seq<char>,
    channel_name: Option<Seq<char>>,
    expires_at: Timestamp,
    max_outstanding: i64,
    now: Timestamp,
    id: u128,
)
    requires
        minted(
            before,
            after,
            outcome,
            org,
            code_hash,
            channel_name,
            expires_at,
            max_outstanding,
            now,
            id,
        ),
    ensures
        outcome is Created ==> outstanding(after, org, now) <= max_outstanding,
        outcome is LimitReached ==> outstanding(after, org, now) >= max_outstanding,
{
    if outcome is Created {
        let kept = after.drop_last();
        lemma_filter_push(kept, after.last(), counts(org, now));
        assert(after =~= kept.push(after.last()));
    }
}

/// A poll reports a channel exactly where the code was claimed and left one, and `Pending`
/// exactly where it was not claimed and has time left.
pub proof fn law_what_a_poll_reports(
    consumed_at: Option<Timestamp>,
    expires_at: Timestamp,
    channel_id: Option<u128>,
    now: Timestamp,
    c: u128,
)
    ensures
        status_of(consumed_at, expires_at, channel_id, now) == (LinkCodeStatus::Consumed {
            channel_id: c,
        }) <==> consumed_at is Some && channel_id == Some(c),
        status_of(consumed_at, expires_at, channel_id, now) == LinkCodeStatus::Pending
            <==> consumed_at is None && now.nanos < expires_at.nanos,
{
}

/// A mint is refused exactly where the org's live codes, those neither claimed nor expired,
/// are as many as the cap. One that is not adds the code as it was asked for, unclaimed,
/// behind what was there. Either way exactly the org's expired codes that left no channel are
/// gone.
pub proof fn law_a_mint_adds_the_code_asked_for(
    before: Seq<LinkRow>,
    after: Seq<LinkRow>,
    outcome: MintOutcome,
    org: OrgId,
    code_hash: Seq<char>,
    channel_name: Option<Seq<char>>,
    expires_at: Timestamp,
    max_outstanding: i64,
    now: Timestamp,
    id: u128,
    x: LinkRow,
)
    requires
        minted(
            before,
            after,
            outcome,
            org,
            code_hash,
            channel_name,
            expires_at,
            max_outstanding,
            now,
            id,
        ),
    ensures
        outcome is LimitReached <==> before.filter(
            |r: LinkRow|
                r.org == org && r.consumed_at is None && r.expires_at.nanos > now.nanos,
        ).len() >= max_outstanding,
        outcome matches MintOutcome::Created(code) ==> {
            let row = after.last();
            &&& after.len() > 0
            &&& code.id == id && code.expires_at == expires_at
            &&& row.id == id && row.org == org
            &&& row.code_hash@ == code_hash
            &&& opt_view(row.channel_name) == channel_name
            &&& row.expires_at == expires_at
            &&& row.consumed_at is None && row.channel_id is None
        },
        ({
            let kept = if outcome is Created {
                after.drop_last()
            } else {
                after
            };
            kept.contains(x) <==> before.contains(x) && !(x.org == org && x.expires_at.nanos
                <= now.nanos && x.channel_id is None)
        }),
{
    let live = |r: LinkRow|
        r.org == org && r.consumed_at is None && r.expires_at.nanos > now.nanos;
    assert(live =~= counts(org, now));
    lemma_filter_narrows(before, survives(org, now), live);
    lemma_filter_members(before, survives(org, now));
}

/// A claim takes the first live code with the hash, marks that one claimed at `now` and
/// changes nothing else; its link carries the code's id, org and name. Without such a code
/// there is no link and no change.
pub proof fn law_a_claim_marks_its_code(
    before: Seq<LinkRow>,
    after: Seq<LinkRow>,
    r: Option<ConsumedLink>,
    code_hash: Seq<char>,
    now: Timestamp,
    i: int,
)
    requires
        claimed(before, after, r, code_hash, now),
        0 <= i <= before.len(),
        forall|j: int|
            0 <= j < i ==> {
                let b = #[trigger] before[j];
                b.consumed_at is Some || b.expires_at.nanos <= now.nanos || b.code_hash@
                    != code_hash
            },
        i < before.len() ==> {
            let b = before[i];
            b.consumed_at is None && b.expires_at.nanos > now.nanos && b.code_hash@ == code_hash
        },
    ensures
        i == before.len() ==> r is None && after == before,
        i < before.len() ==> {
            let (a, b) = (after[i], before[i]);
            &&& r matches Some(link)
            &&& link.id == b.id && link.org_id == b.org && link.channel_name == b.channel_name
            &&& after.len() == before.len()
            &&& a.consumed_at == Some(now)
            &&& a.id == b.id && a.org == b.org
            &&& a.code_hash == b.code_hash && a.channel_name == b.channel_name
            &&& a.expires_at == b.expires_at && a.channel_id == b.channel_id
            &&& forall|j: int|
                0 <= j < before.len() && j != i ==> #[trigger] after[j] == before[j]
        },
{
    if i < before.len() {
        lemma_index_where_is(before, claimable(code_hash, now), i);
    } else {
        lemma_index_where_none(before, claimable(code_hash, now));
    }
}

} // verus!
