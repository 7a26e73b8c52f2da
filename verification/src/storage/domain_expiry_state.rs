//! Sticky last-good cache for domain-expiry checks. Every method takes the org: both the
//! org and the target must match for an operation to read or change a state.

use vstd::prelude::*;

use crate::ids::OrgId;
use crate::strings::{opt_clone, opt_owned, opt_str_view, opt_view, owned};
use crate::table::Table;
use crate::time::{now, Timestamp};

verus! {

/// What is known of a domain's expiry.
#[derive(Debug)]
pub struct DomainExpiryState {
    pub domain: String,
    pub expiry_at: Timestamp,
    pub registrar: Option<String>,
    /// Moment of the last *successful* probe. Never advanced by failures: the staleness
    /// ceiling depends on this.
    pub last_success_at: Timestamp,
    pub last_attempt_at: Timestamp,
    pub last_error: Option<String>,
    pub attempts: i32,
}

impl Clone for DomainExpiryState {
    fn clone(&self) -> (r: Self)
        ensures
            r == *self,
    {
        DomainExpiryState {
            domain: self.domain.clone(),
            expiry_at: self.expiry_at,
            registrar: opt_clone(&self.registrar),
            last_success_at: self.last_success_at,
            last_attempt_at: self.last_attempt_at,
            last_error: opt_clone(&self.last_error),
            attempts: self.attempts,
        }
    }
}

/// The state after a successful probe.
pub open spec fn succeeded(
    s: DomainExpiryState,
    domain: Seq<char>,
    expiry_at: Timestamp,
    registrar: Option<Seq<char>>,
    now: Timestamp,
) -> bool {
    &&& s.domain@ == domain
    &&& s.expiry_at == expiry_at
    &&& opt_view(s.registrar) == registrar
    &&& s.last_success_at == now
    &&& s.last_attempt_at == now
    &&& s.last_error is None
    &&& s.attempts == 0
}

/// The state after a failed probe.
pub open spec fn failed(
    before: DomainExpiryState,
    after: DomainExpiryState,
    error: Seq<char>,
    now: Timestamp,
) -> bool {
    &&& opt_view(after.last_error) == Some(error)
    &&& after.attempts == before.attempts + 1
    &&& after.last_attempt_at == now
    &&& after.domain == before.domain
    &&& after.expiry_at == before.expiry_at
    &&& after.registrar == before.registrar
    &&& after.last_success_at == before.last_success_at
}

/// States by org and target.
pub open spec fn state_key(org: OrgId, target: u128) -> (u128, u128) {
    (org.0, target)
}

/// What recording a success does.
pub open spec fn success_recorded(
    before: Map<(u128, u128), DomainExpiryState>,
    after: Map<(u128, u128), DomainExpiryState>,
    org: OrgId,
    target: u128,
    domain: Seq<char>,
    expiry_at: Timestamp,
    registrar: Option<Seq<char>>,
    now: Timestamp,
) -> bool {
    let k = state_key(org, target);
    &&& after == before.insert(k, after[k])
    &&& succeeded(after[k], domain, expiry_at, registrar, now)
}

/// What recording a failure does and returns.
pub open spec fn failure_recorded(
    before: Map<(u128, u128), DomainExpiryState>,
    after: Map<(u128, u128), DomainExpiryState>,
    r: Option<DomainExpiryState>,
    org: OrgId,
    target: u128,
    error: Seq<char>,
    now: Timestamp,
) -> bool {
    let k = state_key(org, target);
    if before.dom().contains(k) {
        &&& r matches Some(s)
        &&& after == before.insert(k, s)
        &&& failed(before[k], s, error, now)
    } else {
        r is None && after == before
    }
}

/// States in memory.
#[derive(Debug)]
pub struct InMemoryDomainExpiryStateStore {
    inner: Table<DomainExpiryState>,
}

impl InMemoryDomainExpiryStateStore {
    pub closed spec fn wf(self) -> bool {
        self.inner.wf()
    }

    /// The state of each org's target.
    pub closed spec fn view(self) -> Map<(u128, u128), DomainExpiryState> {
        self.inner@
    }

    pub fn new() -> (r: Self)
        ensures
            r.wf(),
            r@ == Map::<(u128, u128), DomainExpiryState>::empty(),
    {
        InMemoryDomainExpiryStateStore { inner: Table::new() }
    }

    /// The state of an org's target.
    pub fn get(&self, org: OrgId, target: u128) -> (r: Option<DomainExpiryState>)
        requires
            self.wf(),
        ensures
            r == (if self@.dom().contains(state_key(org, target)) {
                Some(self@[state_key(org, target)])
            } else {
                None
            }),
    {
        match self.inner.get((org.0, target)) {
            Some(s) => Some(s.clone()),
            None => None,
        }
    }

    /// Records a success at `now`.
    pub fn upsert_success_at(
        &mut self,
        org: OrgId,
        target: u128,
        domain: &str,
        expiry_at: Timestamp,
        registrar: Option<&str>,
        now: Timestamp,
    )
        requires
            old(self).wf(),
        ensures
            final(self).wf(),
            success_recorded(
                old(self)@,
                final(self)@,
                org,
                target,
                domain@,
                expiry_at,
                opt_str_view(registrar),
                now,
            ),
    {
        self.inner.insert(
            (org.0, target),
            DomainExpiryState {
                domain: owned(domain),
                expiry_at,
                registrar: opt_owned(registrar),
                last_success_at: now,
                last_attempt_at: now,
                last_error: None,
                attempts: 0,
            },
        );
    }

    /// Records a success now.
    pub fn upsert_success(
        &mut self,
        org: OrgId,
        target: u128,
        domain: &str,
        expiry_at: Timestamp,
        registrar: Option<&str>,
    )
        requires
            old(self).wf(),
        ensures
            final(self).wf(),
            exists|t: Timestamp|
                t.wf() && #[trigger] success_recorded(
                    old(self)@,
                    final(self)@,
                    org,
                    target,
                    domain@,
                    expiry_at,
                    opt_str_view(registrar),
                    t,
                ),
    {
        let t = now();
        self.upsert_success_at(org, target, domain, expiry_at, registrar, t)
    }

    /// Records a failure at `now` and returns the state after it: the caller decides
    /// whether it is fresh enough to serve. `None`: there is no last good state.
    pub fn record_failure_returning_at(
        &mut self,
        org: OrgId,
        target: u128,
        error: &str,
        now: Timestamp,
    ) -> (r: Option<DomainExpiryState>)
        requires
            old(self).wf(),
            old(self)@.dom().contains(state_key(org, target)) ==> old(self)@[state_key(
                org,
                target,
            )].attempts < i32::MAX,
        ensures
            final(self).wf(),
            failure_recorded(old(self)@, final(self)@, r, org, target, error@, now),
    {
        let found = match self.inner.get((org.0, target)) {
            Some(s) => Some(s.clone()),
            None => None,
        };
        match found {
            None => None,
            Some(s) => {
                let state = DomainExpiryState {
                    domain: s.domain,
                    expiry_at: s.expiry_at,
                    registrar: s.registrar,
                    last_success_at: s.last_success_at,
                    last_attempt_at: now,
                    last_error: Some(owned(error)),
                    attempts: s.attempts + 1,
                };
                let shown = state.clone();
                self.inner.insert((org.0, target), state);
                Some(shown)
            },
        }
    }

    /// Records a failure now.
    pub fn record_failure_returning(&mut self, org: OrgId, target: u128, error: &str) -> (r: Option<
        DomainExpiryState,
    >)
        requires
            old(self).wf(),
            old(self)@.dom().contains(state_key(org, target)) ==> old(self)@[state_key(
                org,
                target,
            )].attempts < i32::MAX,
        ensures
            final(self).wf(),
            exists|t: Timestamp|
                t.wf() && #[trigger] failure_recorded(
                    old(self)@,
                    final(self)@,
                    r,
                    org,
                    target,
                    error@,
                    t,
                ),
    {
        let t = now();
        self.record_failure_returning_at(org, target, error, t)
    }
}

/// A failure never moves the moment of the last success nor what it found; a success
/// clears the failures.
pub proof fn law_last_good_is_sticky(
    before: Map<(u128, u128), DomainExpiryState>,
    mid: Map<(u128, u128), DomainExpiryState>,
    after: Map<(u128, u128), DomainExpiryState>,
    r: Option<DomainExpiryState>,
    org: OrgId,
    target: u128,
    error: Seq<char>,
    domain: Seq<char>,
    expiry_at: Timestamp,
    registrar: Option<Seq<char>>,
    t: Timestamp,
    u: Timestamp,
    other: OrgId,
)
    requires
        success_recorded(before, mid, org, target, domain, expiry_at, registrar, t),
        failure_recorded(mid, after, r, org, target, error, u),
        other != org,
    ensures
        mid[state_key(org, target)].attempts == 0,
        mid[state_key(org, target)].last_error is None,
        after[state_key(org, target)].last_success_at == t,
        after[state_key(org, target)].expiry_at == expiry_at,
        after[state_key(org, target)].domain@ == domain,
        after[state_key(org, target)].attempts == 1,
        after.dom().contains(state_key(other, target)) <==> before.dom().contains(
            state_key(other, target),
        ),
        after[state_key(other, target)] == before[state_key(other, target)],
{
    assert(state_key(other, target) != state_key(org, target));
    let k = state_key(org, target);
    assert(mid.dom().contains(k)) by {
        assert(before.insert(k, mid[k]).dom().contains(k));
    }
    assert(after[k] == r->Some_0);
}

/// A success holds what the probe found, stamped twice and without a failure; a failure counts
/// one more attempt and keeps its message and time. A target without a success has no state to
/// fail. Either changes that org's target alone.
pub proof fn law_probes_are_recorded_as_they_went(
    before: Map<(u128, u128), DomainExpiryState>,
    good: Map<(u128, u128), DomainExpiryState>,
    bad: Map<(u128, u128), DomainExpiryState>,
    r: Option<DomainExpiryState>,
    org: OrgId,
    target: u128,
    error: Seq<char>,
    domain: Seq<char>,
    expiry_at: Timestamp,
    registrar: Option<Seq<char>>,
    now: Timestamp,
    k: (u128, u128),
)
    requires
        success_recorded(before, good, org, target, domain, expiry_at, registrar, now),
        failure_recorded(before, bad, r, org, target, error, now),
    ensures
        ({
            let s = good[(org.0, target)];
            &&& good.dom().contains((org.0, target))
            &&& s.domain@ == domain && s.expiry_at == expiry_at
            &&& opt_view(s.registrar) == registrar
            &&& s.last_success_at == now && s.last_attempt_at == now
            &&& s.last_error is None && s.attempts == 0
        }),
        r is Some <==> before.dom().contains((org.0, target)),
        r is None ==> bad == before,
        r matches Some(a) ==> {
            let b = before[(org.0, target)];
            &&& bad[(org.0, target)] == a
            &&& opt_view(a.last_error) == Some(error) && a.attempts == b.attempts + 1
            &&& a.last_attempt_at == now && a.last_success_at == b.last_success_at
            &&& a.domain == b.domain && a.expiry_at == b.expiry_at && a.registrar == b.registrar
        },
        k != (org.0, target) ==> {
            &&& good.dom().contains(k) <==> before.dom().contains(k)
            &&& bad.dom().contains(k) <==> before.dom().contains(k)
            &&& good[k] == before[k]
            &&& bad[k] == before[k]
        },
{
    let key = state_key(org, target);
    assert(before.insert(key, good[key]).dom().contains(key));
}

} // verus!
