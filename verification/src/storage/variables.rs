//! `org_variables` — reusable named values per org. A secret variable's value is
//! sealed with the key-encryption key (plaintext fallback when there is none) and
//! is opened only in [`VariableStore::resolve_map`], which the worker calls to
//! interpolate `{{key}}` references at probe time. The operator-facing
//! [`Variable`] never carries a secret value.

use vstd::prelude::*;

use crate::collections::{
    derefs, index_where, is_order, lemma_filter_members, lemma_index_where, lemma_index_where_is,
    lemma_index_where_none, lemma_listing, lemma_stable_sorted, position, retain, select_refs,
    sort_refs, stable_sorted,
};
use crate::error::AppError;
use crate::ids::{random_id, OrgId, UserId};
use crate::strings::{
    at_most, has_prefix, lemma_str_le, opt_clone, opt_view, owned, starts_with, str_eq, str_le,
};
use crate::time::{now, Timestamp};

verus! {

/// One variable.
#[derive(Debug, Clone, Copy, PartialEq, Eq, Structural)]
pub struct VariableId(pub u128);

/// A variable as an operator sees it: a secret's value is not in it.
#[derive(Debug)]
pub struct Variable {
    pub id: VariableId,
    pub org_id: OrgId,
    pub key: String,
    pub is_secret: bool,
    pub value: Option<String>,
    pub updated_at: Timestamp,
    pub updated_by: Option<UserId>,
}

impl Clone for Variable {
    fn clone(&self) -> (r: Self)
        ensures
            r == *self,
    {
        Variable {
            id: self.id,
            org_id: self.org_id,
            key: self.key.clone(),
            is_secret: self.is_secret,
            value: opt_clone(&self.value),
            updated_at: self.updated_at,
            updated_by: self.updated_by,
        }
    }
}

/// A variable to be made.
#[derive(Debug)]
pub struct NewVariable {
    pub key: String,
    pub is_secret: bool,
    pub value: String,
}

/// Result of [`VariableStore::create`]. The store stays free of HTTP concerns;
/// the handler maps the conflict to a 409.
#[derive(Debug)]
pub enum CreateVariableOutcome {
    Created(Variable),
    /// An active variable with this key already exists in the org.
    DuplicateKey,
}

/// A stored value is a sealed envelope.
pub open spec fn is_sealed(s: Seq<char>) -> bool {
    has_prefix(s, "v1:"@)
}

/// Whether a stored value is a sealed envelope.
pub fn is_envelope(s: &str) -> (r: bool)
    ensures
        r == is_sealed(s@),
{
    starts_with(s, "v1:")
}

/// What is stored for a value, where the cipher made `sealed` of it: a secret is stored
/// sealed if there is a cipher, everything else as it is.
pub open spec fn stored_value(raw: Seq<char>, is_secret: bool, sealed: Option<Seq<char>>) -> Seq<
    char,
> {
    match sealed {
        Some(env) if is_secret => env,
        _ => raw,
    }
}

/// Seal a value for storage: sealed for a secret, plaintext for a plain variable.
/// `sealed` is what the cipher made of the value, or `None` where no
/// key-encryption key is configured.
pub fn seal_value(raw: &str, is_secret: bool, sealed: Option<Result<String, String>>) -> (r: Result<
    String,
    AppError,
>)
    ensures
        match sealed {
            Some(Ok(env)) => r matches Ok(s) && s@ == stored_value(raw@, is_secret, Some(env@)),
            None => r matches Ok(s) && s@ == stored_value(raw@, is_secret, None),
            Some(Err(why)) => if is_secret {
                r matches Err(AppError::Other(m)) && m@ == "variable encryption failed: "@ + why@
            } else {
                r matches Ok(s) && s@ == raw@
            },
        },
{
    if !is_secret {
        return Ok(owned(raw));
    }
    match sealed {
        None => Ok(owned(raw)),
        Some(Ok(env)) => Ok(env),
        Some(Err(why)) => {
            let mut m = owned("variable encryption failed: ");
            m.append(why.as_str());
            Err(AppError::Other(m))
        },
    }
}

/// What a stored secret reads as: without a key only a value that was stored in
/// the clear; with one, what the cipher made of it.
pub open spec fn opened_value(stored: Seq<char>, opened: Option<Option<Seq<char>>>) -> Option<
    Seq<char>,
> {
    match opened {
        Some(v) => v,
        None => if is_sealed(stored) {
            None
        } else {
            Some(stored)
        },
    }
}

/// Open a stored secret. `opened` is what the cipher made of it, or `None` where
/// no key-encryption key is configured.
pub fn open_str(stored: &str, opened: Option<Option<String>>) -> (r: Option<String>)
    ensures
        opt_view(r) == opened_value(
            stored@,
            match opened {
                Some(v) => Some(opt_view(v)),
                None => None,
            },
        ),
{
    match opened {
        Some(v) => v,
        None => {
            if is_envelope(stored) {
                None
            } else {
                Some(owned(stored))
            }
        },
    }
}

/// Without a key-encryption key a secret reads back as it was stored, unless it
/// looks like an envelope itself.
pub proof fn law_plaintext_reads_back(raw: Seq<char>)
    requires
        !is_sealed(raw),
    ensures
        opened_value(stored_value(raw, true, None), None) == Some(raw),
{
}

/// A secret that was sealed is stored as an envelope, reads as nothing without a key, and
/// opens to what was sealed with a cipher that gives back what it encrypted. A plain value
/// is stored as it is, key or no key.
pub proof fn law_sealed_secret_opens(
    raw: Seq<char>,
    env: Seq<char>,
    decrypt: spec_fn(Seq<char>) -> Option<Seq<char>>,
)
    requires
        is_sealed(env),
        decrypt(env) == Some(raw),
    ensures
        ({
            let stored = stored_value(raw, true, Some(env));
            &&& is_sealed(stored)
            &&& opened_value(stored, Some(decrypt(stored))) == Some(raw)
            &&& opened_value(stored, None) is None
        }),
        forall|k: Option<Seq<char>>| #[trigger] stored_value(raw, false, k) == raw,
{
}

/// A stored variable, its value as it is stored.
#[derive(Debug)]
pub struct VarRow {
    pub id: u128,
    pub org_id: u128,
    pub key: String,
    pub is_secret: bool,
    pub value: String,
    pub updated_at: Timestamp,
    pub updated_by: Option<u128>,
}

impl VarRow {
    /// Operator view: a plain value passes through, a secret is redacted here so
    /// the sealed bytes never reach a read surface.
    pub fn into_view(self) -> (r: Variable)
        ensures
            r == (Variable {
                id: VariableId(self.id),
                org_id: OrgId(self.org_id),
                key: self.key,
                is_secret: self.is_secret,
                value: if self.is_secret {
                    None
                } else {
                    Some(self.value)
                },
                updated_at: self.updated_at,
                updated_by: match self.updated_by {
                    Some(u) => Some(UserId(u)),
                    None => None,
                },
            }),
    {
        let value = if self.is_secret {
            None
        } else {
            Some(self.value)
        };
        let updated_by = match self.updated_by {
            Some(u) => Some(UserId(u)),
            None => None,
        };
        Variable {
            id: VariableId(self.id),
            org_id: OrgId(self.org_id),
            key: self.key,
            is_secret: self.is_secret,
            value,
            updated_at: self.updated_at,
            updated_by,
        }
    }
}

/// A variable's value as the worker uses it.
#[derive(Debug)]
pub struct ResolvedVar {
    pub key: String,
    pub value: String,
    pub is_secret: bool,
}

/// Values by key.
#[derive(Debug)]
pub struct VarMap {
    entries: Vec<ResolvedVar>,
}

impl VarMap {
    /// No key stands for two values.
    pub closed spec fn wf(self) -> bool {
        forall|i: int, j: int|
            0 <= i < j < self.entries@.len() ==> (#[trigger] self.entries@[i]).key@ != (
            #[trigger] self.entries@[j]).key@
    }

    /// The value and secret flag of each key.
    pub closed spec fn view(self) -> Map<Seq<char>, (Seq<char>, bool)> {
        Map::new(
            |k: Seq<char>| exists|i: int|
                0 <= i < self.entries@.len() && (#[trigger] self.entries@[i]).key@ == k,
            |k: Seq<char>|
                {
                    let i = choose|i: int|
                        0 <= i < self.entries@.len() && (#[trigger] self.entries@[i]).key@ == k;
                    (self.entries@[i].value@, self.entries@[i].is_secret)
                },
        )
    }

    pub fn new() -> (r: Self)
        ensures
            r.wf(),
            r@ == Map::<Seq<char>, (Seq<char>, bool)>::empty(),
    {
        let r = VarMap { entries: Vec::new() };
        assert(r@ =~= Map::<Seq<char>, (Seq<char>, bool)>::empty());
        r
    }

    fn find(&self, key: &str) -> (r: Option<usize>)
        requires
            self.wf(),
        ensures
            match r {
                Some(i) => i < self.entries@.len() && self.entries@[i as int].key@ == key@
                    && self@.dom().contains(key@) && self@[key@] == (
                    self.entries@[i as int].value@,
                    self.entries@[i as int].is_secret,
                ),
                None => !self@.dom().contains(key@) && forall|i: int|
                    0 <= i < self.entries@.len() ==> (#[trigger] self.entries@[i]).key@ != key@,
            },
    {
        let same = |e: &ResolvedVar| -> (b: bool)
            ensures
                b == (e.key@ == key@),
        { str_eq(e.key.as_str(), key) };
        let r = position(&self.entries, same, Ghost(|e: ResolvedVar| e.key@ == key@));
        proof {
            lemma_index_where(self.entries@, |e: ResolvedVar| e.key@ == key@);
            if let Some(i) = r {
                let c = choose|c: int|
                    0 <= c < self.entries@.len() && (#[trigger] self.entries@[c]).key@ == key@;
                assert(self.entries@[i as int].key@ == key@);
                if c < i {
                    assert(self.entries@[c].key@ != self.entries@[i as int].key@);
                } else if i < c {
                    assert(self.entries@[i as int].key@ != self.entries@[c].key@);
                }
            }
        }
        r
    }

    /// The value of a key.
    pub fn get(&self, key: &str) -> (r: Option<&ResolvedVar>)
        requires
            self.wf(),
        ensures
            r is Some <==> self@.dom().contains(key@),
            r matches Some(v) ==> v.key@ == key@ && self@[key@] == (v.value@, v.is_secret),
    {
        match self.find(key) {
            Some(i) => Some(&self.entries[i]),
            None => None,
        }
    }

    pub fn is_empty(&self) -> (r: bool)
        ensures
            r == (self@ == Map::<Seq<char>, (Seq<char>, bool)>::empty()),
    {
        let r = self.entries.len() == 0;
        proof {
            if r {
                assert(self@ =~= Map::<Seq<char>, (Seq<char>, bool)>::empty());
            } else {
                assert(self.entries@[0].key@ == self.entries@[0].key@);
                assert(self@.dom().contains(self.entries@[0].key@));
            }
        }
        r
    }

    /// Sets the value of a key.
    pub fn insert(&mut self, entry: ResolvedVar)
        requires
            old(self).wf(),
        ensures
            final(self).wf(),
            final(self)@ == old(self)@.insert(entry.key@, (entry.value@, entry.is_secret)),
    {
        let ghost before = self.entries@;
        let ghost key = entry.key@;
        let ghost val = (entry.value@, entry.is_secret);
        match self.find(entry.key.as_str()) {
            Some(i) => {
                self.entries[i] = entry;
                proof {
                    assert forall|a: int, b: int| 0 <= a < b < self.entries@.len() implies (
                    #[trigger] self.entries@[a]).key@ != (#[trigger] self.entries@[b]).key@ by {
                        assert(self.entries@[a].key@ == before[a].key@);
                        assert(self.entries@[b].key@ == before[b].key@);
                        assert(before[a].key@ != before[b].key@);
                    }
                    lemma_var_map_set(before, self.entries@, key, val, i as int);
                }
            },
            None => {
                self.entries.push(entry);
                proof {
                    let n = before.len() as int;
                    assert forall|a: int, b: int| 0 <= a < b < self.entries@.len() implies (
                    #[trigger] self.entries@[a]).key@ != (#[trigger] self.entries@[b]).key@ by {
                        assert(self.entries@[a] == before[a]);
                        if b < n {
                            assert(self.entries@[b] == before[b]);
                        }
                    }
                    lemma_var_map_set(before, self.entries@, key, val, n);
                }
            },
        }
    }
}

spec fn var_map_of(s: Seq<ResolvedVar>) -> Map<Seq<char>, (Seq<char>, bool)> {
    Map::new(
        |k: Seq<char>| exists|i: int| 0 <= i < s.len() && (#[trigger] s[i]).key@ == k,
        |k: Seq<char>|
            {
                let i = choose|i: int| 0 <= i < s.len() && (#[trigger] s[i]).key@ == k;
                (s[i].value@, s[i].is_secret)
            },
    )
}

proof fn lemma_var_map_at(s: Seq<ResolvedVar>, i: int)
    requires
        0 <= i < s.len(),
        forall|a: int, b: int|
            0 <= a < b < s.len() ==> (#[trigger] s[a]).key@ != (#[trigger] s[b]).key@,
    ensures
        var_map_of(s).dom().contains(s[i].key@),
        var_map_of(s)[s[i].key@] == (s[i].value@, s[i].is_secret),
{
    let k = s[i].key@;
    let c = choose|c: int| 0 <= c < s.len() && (#[trigger] s[c]).key@ == k;
    assert(s[i].key@ == k);
    if c < i {
        assert(s[c].key@ != s[i].key@);
    } else if i < c {
        assert(s[i].key@ != s[c].key@);
    }
}

proof fn lemma_var_map_set(
    before: Seq<ResolvedVar>,
    after: Seq<ResolvedVar>,
    key: Seq<char>,
    val: (Seq<char>, bool),
    i: int,
)
    requires
        0 <= i < after.len(),
        after[i].key@ == key,
        (after[i].value@, after[i].is_secret) == val,
        before.len() <= after.len(),
        after.len() == before.len() || (after.len() == before.len() + 1 && i == before.len()),
        forall|j: int| 0 <= j < after.len() && j != i ==> j < before.len() && #[trigger] after[j]
            == before[j],
        i < before.len() ==> before[i].key@ == key,
        forall|a: int, b: int|
            0 <= a < b < before.len() ==> (#[trigger] before[a]).key@ != (#[trigger] before[b]).key@,
        forall|a: int, b: int|
            0 <= a < b < after.len() ==> (#[trigger] after[a]).key@ != (#[trigger] after[b]).key@,
    ensures
        var_map_of(after) == var_map_of(before).insert(key, val),
{
    let m = var_map_of(before).insert(key, val);
    lemma_var_map_at(after, i);
    assert forall|k: Seq<char>| var_map_of(after).dom().contains(k) <==> m.dom().contains(k) by {
        if var_map_of(after).dom().contains(k) && k != key {
            let c = choose|c: int| 0 <= c < after.len() && (#[trigger] after[c]).key@ == k;
            assert(before[c].key@ == k);
        }
        if var_map_of(before).dom().contains(k) && k != key {
            let c = choose|c: int| 0 <= c < before.len() && (#[trigger] before[c]).key@ == k;
            assert(after[c] == before[c]);
        }
    }
    assert forall|k: Seq<char>| var_map_of(after).dom().contains(k) implies var_map_of(after)[k]
        == m[k] by {
        if k != key {
            let c = choose|c: int| 0 <= c < after.len() && (#[trigger] after[c]).key@ == k;
            lemma_var_map_at(after, c);
            lemma_var_map_at(before, c);
        }
    }
    assert(var_map_of(after) =~= m);
}

/// Decrypted `key -> value` map of stored rows, where `opened[i]` is what the
/// cipher made of row `i`'s value if it is a secret. Secrets that cannot be opened
/// are omitted.
pub open spec fn resolved_rows(rows: Seq<VarRow>, opened: Seq<Option<String>>) -> Map<
    Seq<char>,
    (Seq<char>, bool),
>
    decreases rows.len(),
{
    if rows.len() == 0 {
        Map::empty()
    } else {
        let m = resolved_rows(rows.drop_last(), opened);
        let r = rows.last();
        if !r.is_secret {
            m.insert(r.key@, (r.value@, false))
        } else {
            match opened[rows.len() - 1] {
                Some(v) => m.insert(r.key@, (v@, true)),
                None => m,
            }
        }
    }
}

/// Decrypted `key -> value` map of stored rows. Secrets that cannot be opened are
/// omitted (treated as missing downstream).
pub fn resolve_rows(rows: &Vec<VarRow>, opened: &Vec<Option<String>>) -> (r: VarMap)
    requires
        rows@.len() == opened@.len(),
    ensures
        r.wf(),
        r@ == resolved_rows(rows@, opened@),
{
    let mut map = VarMap::new();
    let mut i: usize = 0;
    assert(rows@.take(0) =~= Seq::<VarRow>::empty());
    while i < rows.len()
        invariant
            i <= rows@.len(),
            rows@.len() == opened@.len(),
            map.wf(),
            map@ == resolved_rows(rows@.take(i as int), opened@),
        decreases rows.len() - i,
    {
        assert(rows@.take(i + 1).drop_last() =~= rows@.take(i as int));
        let row = &rows[i];
        if !row.is_secret {
            map.insert(
                ResolvedVar { key: row.key.clone(), value: row.value.clone(), is_secret: false },
            );
        } else {
            match &opened[i] {
                Some(v) => {
                    map.insert(
                        ResolvedVar { key: row.key.clone(), value: v.clone(), is_secret: true },
                    );
                },
                None => {},
            }
        }
        i += 1;
    }
    assert(rows@.take(i as int) =~= rows@);
    map
}

/// One variable of a store: the operator's view and the value behind it.
#[derive(Debug)]
pub struct StoredVar {
    pub var: Variable,
    /// Raw value retained for [`VariableStore::resolve_map`]; the operator view in
    /// `var` redacts secrets.
    pub raw: String,
}

/// The variable is the org's with this id.
pub open spec fn var_of(org: OrgId, id: VariableId) -> spec_fn(StoredVar) -> bool {
    |m: StoredVar| m.var.org_id == org && m.var.id == id
}

/// The variable is the org's with this key.
pub open spec fn keyed(org: OrgId, key: Seq<char>) -> spec_fn(StoredVar) -> bool {
    |m: StoredVar| m.var.org_id == org && m.var.key@ == key
}

/// The variable is the org's.
pub open spec fn owned_by(org: OrgId) -> spec_fn(StoredVar) -> bool {
    |m: StoredVar| m.var.org_id == org
}

/// The variables without the org's of this id.
pub open spec fn without(rows: Seq<StoredVar>, org: OrgId, id: VariableId) -> Seq<StoredVar> {
    rows.filter(|m: StoredVar| !var_of(org, id)(m))
}

/// Order by key.
pub open spec fn key_order() -> spec_fn(StoredVar, StoredVar) -> bool {
    |a: StoredVar, b: StoredVar| str_le(a.var.key@, b.var.key@)
}

/// What creating a variable does and returns.
pub open spec fn created(
    before: Seq<StoredVar>,
    after: Seq<StoredVar>,
    r: CreateVariableOutcome,
    org: OrgId,
    new: NewVariable,
    actor: Option<UserId>,
    now: Timestamp,
    id: u128,
) -> bool {
    match index_where(before, keyed(org, new.key@)) {
        Some(_) => r is DuplicateKey && after == before,
        None => {
            &&& after.len() == before.len() + 1
            &&& after.drop_last() == before
            &&& after.last().raw == new.value
            &&& r == CreateVariableOutcome::Created(after.last().var)
            &&& after.last().var == (Variable {
                id: VariableId(id),
                org_id: org,
                key: new.key,
                is_secret: new.is_secret,
                value: if new.is_secret {
                    None
                } else {
                    Some(new.value)
                },
                updated_at: now,
                updated_by: actor,
            })
        },
    }
}

/// What replacing a variable's value does and returns.
pub open spec fn rotated(
    before: Seq<StoredVar>,
    after: Seq<StoredVar>,
    r: Option<Variable>,
    org: OrgId,
    id: VariableId,
    value: Seq<char>,
    actor: Option<UserId>,
    now: Timestamp,
) -> bool {
    match index_where(before, var_of(org, id)) {
        Some(i) => {
            &&& after.len() == before.len()
            &&& forall|j: int| 0 <= j < before.len() && j != i ==> #[trigger] after[j] == before[j]
            &&& after[i].raw@ == value
            &&& opt_view(after[i].var.value) == (if before[i].var.is_secret {
                None
            } else {
                Some(value)
            })
            &&& after[i].var == (Variable {
                value: after[i].var.value,
                updated_at: now,
                updated_by: actor,
                ..before[i].var
            })
            &&& r == Some(after[i].var)
        },
        None => after == before && r is None,
    }
}

/// The org's values by key: a later variable of the same key would replace an
/// earlier one.
pub open spec fn resolved(rows: Seq<StoredVar>, org: OrgId) -> Map<Seq<char>, (Seq<char>, bool)>
    decreases rows.len(),
{
    if rows.len() == 0 {
        Map::empty()
    } else {
        let m = resolved(rows.drop_last(), org);
        let v = rows.last();
        if v.var.org_id == org {
            m.insert(v.var.key@, (v.raw@, v.var.is_secret))
        } else {
            m
        }
    }
}

/// How often a key is referenced.
#[derive(Debug)]
pub struct KeyUsage {
    pub key: String,
    pub count: i64,
}

/// No org has two variables of one key.
pub open spec fn keys_unique(rows: Seq<StoredVar>) -> bool {
    forall|i: int, j: int|
        0 <= i < j < rows.len() ==> !((#[trigger] rows[i]).var.org_id == (
        #[trigger] rows[j]).var.org_id && rows[i].var.key@ == rows[j].var.key@)
}

/// Org-scoped variable repository. Every method takes the caller's `org` first
/// so a missing scope is a compile error, never a cross-tenant read.
pub trait VariableStore {
    /// Every org's variables, oldest first.
    spec fn vars(&self) -> Seq<StoredVar>;

    /// Operator view, secret values redacted, ordered by key.
    fn list(&self, org: OrgId) -> (out: Vec<Variable>)
        ensures
            out@ == stable_sorted(self.vars().filter(owned_by(org)), key_order()).map_values(
                |m: StoredVar| m.var,
            ),
    ;

    fn get(&self, org: OrgId, id: VariableId) -> (r: Option<Variable>)
        ensures
            r == (match index_where(self.vars(), var_of(org, id)) {
                Some(i) => Some(self.vars()[i].var),
                None => None,
            }),
    ;

    fn create(&mut self, org: OrgId, new: NewVariable, actor: Option<UserId>) -> (r:
        CreateVariableOutcome)
        ensures
            exists|t: Timestamp, id: u128|
                t.wf() && #[trigger] created(
                    old(self).vars(),
                    final(self).vars(),
                    r,
                    org,
                    new,
                    actor,
                    t,
                    id,
                ),
    ;

    /// Replace a variable's value, resealing if it is a secret. `None` when the
    /// id is absent from this org. The secret flag is fixed at create.
    fn update_value(
        &mut self,
        org: OrgId,
        id: VariableId,
        new_value: &str,
        actor: Option<UserId>,
    ) -> (r: Option<Variable>)
        ensures
            exists|t: Timestamp|
                t.wf() && #[trigger] rotated(
                    old(self).vars(),
                    final(self).vars(),
                    r,
                    org,
                    id,
                    new_value@,
                    actor,
                    t,
                ),
    ;

    fn delete(&mut self, org: OrgId, id: VariableId, actor: Option<UserId>) -> (r: bool)
        ensures
            final(self).vars() == without(old(self).vars(), org, id),
            r == (final(self).vars().len() != old(self).vars().len()),
    ;

    /// Decrypted `key -> value` map for the worker.
    fn resolve_map(&self, org: OrgId) -> (r: VarMap)
        ensures
            r.wf(),
            r@ == resolved(self.vars(), org),
    ;
}

/// Variables in memory, minus the at-rest sealing (it holds raw values).
#[derive(Debug)]
pub struct InMemoryVariableStore {
    rows: Vec<StoredVar>,
}

impl View for InMemoryVariableStore {
    type V = Seq<StoredVar>;

    closed spec fn view(&self) -> Seq<StoredVar> {
        self.rows@
    }
}

impl InMemoryVariableStore {
    pub fn new() -> (r: Self)
        ensures
            r@ == Seq::<StoredVar>::empty(),
    {
        InMemoryVariableStore { rows: Vec::new() }
    }

    fn find(&self, org: OrgId, id: VariableId) -> (r: Option<usize>)
        ensures
            match r {
                Some(i) => index_where(self@, var_of(org, id)) == Some(i as int) && i
                    < self@.len(),
                None => index_where(self@, var_of(org, id)) is None,
            },
    {
        let same = |m: &StoredVar| -> (b: bool)
            ensures
                b == (m.var.org_id == org && m.var.id == id),
        { m.var.org_id == org && m.var.id == id };
        position(&self.rows, same, Ghost(var_of(org, id)))
    }

    /// Makes a variable at `now` under the id `id`.
    pub fn create_at(
        &mut self,
        org: OrgId,
        new: NewVariable,
        actor: Option<UserId>,
        now: Timestamp,
        id: u128,
    ) -> (r: CreateVariableOutcome)
        ensures
            created(old(self)@, final(self)@, r, org, new, actor, now, id),
    {
        let same = |m: &StoredVar| -> (b: bool)
            ensures
                b == (m.var.org_id == org && m.var.key@ == new.key@),
        { m.var.org_id == org && str_eq(m.var.key.as_str(), new.key.as_str()) };
        if position(&self.rows, same, Ghost(keyed(org, new.key@))).is_some() {
            return CreateVariableOutcome::DuplicateKey;
        }
        let ghost before = self.rows@;
        let value = if new.is_secret {
            None
        } else {
            Some(new.value.clone())
        };
        let var = Variable {
            id: VariableId(id),
            org_id: org,
            key: new.key,
            is_secret: new.is_secret,
            value,
            updated_at: now,
            updated_by: actor,
        };
        let shown = var.clone();
        self.rows.push(StoredVar { var, raw: new.value });
        assert(self.rows@.drop_last() =~= before);
        CreateVariableOutcome::Created(shown)
    }

    /// Replaces a variable's value at `now`.
    pub fn update_value_at(
        &mut self,
        org: OrgId,
        id: VariableId,
        new_value: &str,
        actor: Option<UserId>,
        now: Timestamp,
    ) -> (r: Option<Variable>)
        ensures
            rotated(old(self)@, final(self)@, r, org, id, new_value@, actor, now),
    {
        let Some(i) = self.find(org, id) else {
            return None;
        };
        let value = if self.rows[i].var.is_secret {
            None
        } else {
            Some(owned(new_value))
        };
        let old_var = self.rows[i].var.clone();
        let var = Variable {
            id: old_var.id,
            org_id: old_var.org_id,
            key: old_var.key,
            is_secret: old_var.is_secret,
            value,
            updated_at: now,
            updated_by: actor,
        };
        let shown = var.clone();
        self.rows[i] = StoredVar { var, raw: owned(new_value) };
        Some(shown)
    }

    /// How often each of the org's keys is referenced: this store knows no
    /// monitors, so never.
    pub fn usage_counts(&self, org: OrgId) -> (out: Vec<KeyUsage>)
        ensures
            ({
                let mine = self@.filter(owned_by(org));
                &&& out@.len() == mine.len()
                &&& forall|i: int|
                    0 <= i < out@.len() ==> (#[trigger] out@[i]).key == mine[i].var.key
                        && out@[i].count == 0
            }),
    {
        let own = |m: &StoredVar| -> (b: bool)
            ensures
                b == (m.var.org_id == org),
        { m.var.org_id == org };
        let hits = select_refs(&self.rows, own, Ghost(owned_by(org)));
        let ghost all = derefs(hits@);
        let mut out: Vec<KeyUsage> = Vec::new();
        let mut i: usize = 0;
        while i < hits.len()
            invariant
                i <= hits@.len(),
                all == derefs(hits@),
                out@.len() == i,
                forall|k: int|
                    0 <= k < i ==> (#[trigger] out@[k]).key == all[k].var.key && out@[k].count
                        == 0,
            decreases hits.len() - i,
        {
            assert(all[i as int] == *hits@[i as int]);
            out.push(KeyUsage { key: hits[i].var.key.clone(), count: 0 });
            i += 1;
        }
        out
    }

    /// How often one key is referenced.
    pub fn usage_count(&self, _org: OrgId, _key: &str) -> (r: i64)
        ensures
            r == 0,
    {
        0
    }
}

impl VariableStore for InMemoryVariableStore {
    open spec fn vars(&self) -> Seq<StoredVar> {
        self@
    }

    fn list(&self, org: OrgId) -> (out: Vec<Variable>) {
        let own = |m: &StoredVar| -> (b: bool)
            ensures
                b == (m.var.org_id == org),
        { m.var.org_id == org };
        let hits = select_refs(&self.rows, own, Ghost(owned_by(org)));
        let le = |a: &StoredVar, b: &StoredVar| -> (r: bool)
            ensures
                r == str_le(a.var.key@, b.var.key@),
        { at_most(a.var.key.as_str(), b.var.key.as_str()) };
        let sorted = sort_refs(hits, le, Ghost(key_order()));
        let ghost all = derefs(sorted@);
        let mut out: Vec<Variable> = Vec::new();
        let mut i: usize = 0;
        while i < sorted.len()
            invariant
                i <= sorted@.len(),
                all == derefs(sorted@),
                out@ == all.take(i as int).map_values(|m: StoredVar| m.var),
            decreases sorted.len() - i,
        {
            assert(all[i as int] == *sorted@[i as int]);
            out.push(sorted[i].var.clone());
            i += 1;
            assert(out@ =~= all.take(i as int).map_values(|m: StoredVar| m.var));
        }
        assert(all.take(i as int) =~= all);
        out
    }

    fn get(&self, org: OrgId, id: VariableId) -> (r: Option<Variable>) {
        match self.find(org, id) {
            Some(i) => Some(self.rows[i].var.clone()),
            None => None,
        }
    }

    fn create(&mut self, org: OrgId, new: NewVariable, actor: Option<UserId>) -> (r:
        CreateVariableOutcome) {
        let t = now();
        let id: u128 = random_id();
        let ghost before = self.vars();
        let r = self.create_at(org, new, actor, t, id);
        assert(created(before, self.vars(), r, org, new, actor, t, id));
        r
    }

    fn update_value(
        &mut self,
        org: OrgId,
        id: VariableId,
        new_value: &str,
        actor: Option<UserId>,
    ) -> (r: Option<Variable>) {
        let t = now();
        let ghost before = self.vars();
        let r = self.update_value_at(org, id, new_value, actor, t);
        assert(rotated(before, self.vars(), r, org, id, new_value@, actor, t));
        r
    }

    fn delete(&mut self, org: OrgId, id: VariableId, _actor: Option<UserId>) -> (r: bool) {
        let before: usize = self.rows.len();
        let keep = |m: &StoredVar| -> (b: bool)
            ensures
                b == !(m.var.org_id == org && m.var.id == id),
        { !(m.var.org_id == org && m.var.id == id) };
        retain(&mut self.rows, keep, Ghost(|m: StoredVar| !var_of(org, id)(m)));
        self.rows.len() != before
    }

    fn resolve_map(&self, org: OrgId) -> (r: VarMap) {
        let mut map = VarMap::new();
        let mut i: usize = 0;
        assert(self.rows@.take(0) =~= Seq::<StoredVar>::empty());
        while i < self.rows.len()
            invariant
                i <= self.rows@.len(),
                map.wf(),
                map@ == resolved(self.rows@.take(i as int), org),
            decreases self.rows.len() - i,
        {
            assert(self.rows@.take(i + 1).drop_last() =~= self.rows@.take(i as int));
            let m = &self.rows[i];
            if m.var.org_id == org {
                map.insert(
                    ResolvedVar {
                        key: m.var.key.clone(),
                        value: m.raw.clone(),
                        is_secret: m.var.is_secret,
                    },
                );
            }
            i += 1;
        }
        assert(self.rows@.take(i as int) =~= self.rows@);
        map
    }
}

/// Creating keeps an org's keys unique.
pub proof fn law_create_keeps_keys_unique(
    before: Seq<StoredVar>,
    after: Seq<StoredVar>,
    r: CreateVariableOutcome,
    org: OrgId,
    new: NewVariable,
    actor: Option<UserId>,
    now: Timestamp,
    id: u128,
)
    requires
        keys_unique(before),
        created(before, after, r, org, new, actor, now, id),
    ensures
        keys_unique(after),
{
    lemma_index_where(before, keyed(org, new.key@));
    if index_where(before, keyed(org, new.key@)) is None {
        assert forall|i: int, j: int| 0 <= i < j < after.len() implies !((
        #[trigger] after[i]).var.org_id == (#[trigger] after[j]).var.org_id && after[i].var.key@
            == after[j].var.key@) by {
            assert(after[i] == after.drop_last()[i]);
            if j < before.len() {
                assert(after[j] == after.drop_last()[j]);
                assert(!(before[i].var.org_id == before[j].var.org_id && before[i].var.key@
                    == before[j].var.key@));
            } else {
                assert(!keyed(org, new.key@)(before[i]));
            }
        }
    }
}

/// No secret's value shows in the operator's view.
pub open spec fn secrets_hidden(rows: Seq<StoredVar>) -> bool {
    forall|i: int|
        0 <= i < rows.len() && (#[trigger] rows[i]).var.is_secret ==> rows[i].var.value is None
}

/// One write: a creation, a new value or a deletion.
pub open spec fn one_write(before: Seq<StoredVar>, after: Seq<StoredVar>) -> bool {
    ||| exists|
        r: CreateVariableOutcome,
        org: OrgId,
        new: NewVariable,
        actor: Option<UserId>,
        now: Timestamp,
        id: u128,
    | #[trigger] created(before, after, r, org, new, actor, now, id)
    ||| exists|
        r: Option<Variable>,
        org: OrgId,
        id: VariableId,
        value: Seq<char>,
        actor: Option<UserId>,
        now: Timestamp,
    | #[trigger] rotated(before, after, r, org, id, value, actor, now)
    ||| exists|org: OrgId, id: VariableId| after == #[trigger] without(before, org, id)
}

/// Every write keeps an org's keys unique and its secrets out of the operator's view.
pub proof fn law_writes_keep_keys_unique_and_secrets_hidden(
    before: Seq<StoredVar>,
    after: Seq<StoredVar>,
)
    requires
        keys_unique(before),
        secrets_hidden(before),
        one_write(before, after),
    ensures
        keys_unique(after),
        secrets_hidden(after),
{
    if exists|
        r: CreateVariableOutcome,
        org: OrgId,
        new: NewVariable,
        actor: Option<UserId>,
        now: Timestamp,
        id: u128,
    | #[trigger] created(before, after, r, org, new, actor, now, id) {
        let (r, org, new, actor, now, id) = choose|
            r: CreateVariableOutcome,
            org: OrgId,
            new: NewVariable,
            actor: Option<UserId>,
            now: Timestamp,
            id: u128,
        | #[trigger] created(before, after, r, org, new, actor, now, id);
        law_create_keeps_keys_unique(before, after, r, org, new, actor, now, id);
        assert forall|i: int|
            0 <= i < after.len() && (#[trigger] after[i]).var.is_secret implies after[i].var.value
            is None by {
            if i < before.len() {
                assert(after.drop_last()[i] == after[i] || after == before);
                assert(before[i] == after[i]);
            }
        }
    } else if exists|
        r: Option<Variable>,
        org: OrgId,
        id: VariableId,
        value: Seq<char>,
        actor: Option<UserId>,
        now: Timestamp,
    | #[trigger] rotated(before, after, r, org, id, value, actor, now) {
        let (r, org, id, value, actor, now) = choose|
            r: Option<Variable>,
            org: OrgId,
            id: VariableId,
            value: Seq<char>,
            actor: Option<UserId>,
            now: Timestamp,
        | #[trigger] rotated(before, after, r, org, id, value, actor, now);
        lemma_index_where(before, var_of(org, id));
        assert forall|j: int| 0 <= j < before.len() implies (#[trigger] after[j]).var.org_id
            == before[j].var.org_id && after[j].var.key == before[j].var.key && after[j].var.is_secret
            == before[j].var.is_secret && (before[j].var.is_secret ==> after[j].var.value is None) by {
            let hit = before[j];
        }
        assert forall|i: int, j: int| 0 <= i < j < after.len() implies !((
        #[trigger] after[i]).var.org_id == (#[trigger] after[j]).var.org_id && after[i].var.key@
            == after[j].var.key@) by {
            assert(!(before[i].var.org_id == before[j].var.org_id && before[i].var.key@
                == before[j].var.key@));
        }
    } else {
        let (org, id) = choose|org: OrgId, id: VariableId|
            after == #[trigger] without(before, org, id);
        lemma_filter_keeps(before, |m: StoredVar| !var_of(org, id)(m));
    }
}

proof fn lemma_filter_keeps(rows: Seq<StoredVar>, p: spec_fn(StoredVar) -> bool)
    requires
        keys_unique(rows),
        secrets_hidden(rows),
    ensures
        keys_unique(rows.filter(p)),
        secrets_hidden(rows.filter(p)),
    decreases rows.len(),
{
    reveal(Seq::filter);
    if rows.len() > 0 {
        let front = rows.drop_last();
        assert forall|i: int| 0 <= i < front.len() && (#[trigger] front[i]).var.is_secret implies
            front[i].var.value is None by {
            assert(front[i] == rows[i]);
        }
        assert forall|i: int, j: int| 0 <= i < j < front.len() implies !((
        #[trigger] front[i]).var.org_id == (#[trigger] front[j]).var.org_id && front[i].var.key@
            == front[j].var.key@) by {
            assert(front[i] == rows[i] && front[j] == rows[j]);
        }
        lemma_filter_keeps(front, p);
        let kept = front.filter(p);
        let all = rows.filter(p);
        if p(rows.last()) {
            assert(all == kept.push(rows.last()));
            lemma_filter_members(front, p);
            assert forall|i: int, j: int| 0 <= i < j < all.len() implies !((
            #[trigger] all[i]).var.org_id == (#[trigger] all[j]).var.org_id && all[i].var.key@
                == all[j].var.key@) by {
                assert(all[i] == kept[i]);
                if j == kept.len() {
                    assert(kept.contains(kept[i]));
                    let k = choose|k: int| 0 <= k < front.len() && front[k] == kept[i];
                    assert(rows[k] == kept[i]);
                    assert(rows[rows.len() - 1] == all[j]);
                } else {
                    assert(all[j] == kept[j]);
                }
            }
            assert forall|i: int| 0 <= i < all.len() && (#[trigger] all[i]).var.is_secret implies
                all[i].var.value is None by {
                if i < kept.len() {
                    assert(all[i] == kept[i]);
                } else {
                    assert(rows[rows.len() - 1] == all[i]);
                }
            }
        }
    }
}

/// What was created resolves to its value, secret or not, and only a plain value
/// shows in the operator's view.
pub proof fn law_created_value_resolves(
    before: Seq<StoredVar>,
    after: Seq<StoredVar>,
    r: CreateVariableOutcome,
    org: OrgId,
    new: NewVariable,
    actor: Option<UserId>,
    now: Timestamp,
    id: u128,
)
    requires
        created(before, after, r, org, new, actor, now, id),
        r is Created,
    ensures
        resolved(after, org).dom().contains(new.key@),
        resolved(after, org)[new.key@] == (new.value@, new.is_secret),
        r->Created_0.value is None <==> new.is_secret,
        !new.is_secret ==> r->Created_0.value == Some(new.value),
{
}

/// Another org's values do not change when a variable is created.
pub proof fn law_create_leaves_other_orgs_alone(
    before: Seq<StoredVar>,
    after: Seq<StoredVar>,
    r: CreateVariableOutcome,
    org: OrgId,
    new: NewVariable,
    actor: Option<UserId>,
    now: Timestamp,
    id: u128,
    other: OrgId,
)
    requires
        created(before, after, r, org, new, actor, now, id),
        other != org,
    ensures
        resolved(after, other) == resolved(before, other),
{
}

/// A request under another org's scope neither reads nor changes a variable.
pub proof fn law_tenant_isolation(
    rows: Seq<StoredVar>,
    after: Seq<StoredVar>,
    r: Option<Variable>,
    org: OrgId,
    id: VariableId,
    value: Seq<char>,
    actor: Option<UserId>,
    now: Timestamp,
)
    requires
        forall|i: int|
            0 <= i < rows.len() && (#[trigger] rows[i]).var.id == id ==> rows[i].var.org_id != org,
        rotated(rows, after, r, org, id, value, actor, now),
    ensures
        index_where(rows, var_of(org, id)) is None,
        r is None,
        after == rows,
        without(rows, org, id) == rows,
{
    lemma_index_where_none(rows, var_of(org, id));
    lemma_filter_all(rows, |m: StoredVar| !var_of(org, id)(m));
}

proof fn lemma_filter_all(rows: Seq<StoredVar>, p: spec_fn(StoredVar) -> bool)
    requires
        forall|i: int| 0 <= i < rows.len() ==> p(#[trigger] rows[i]),
    ensures
        rows.filter(p) == rows,
    decreases rows.len(),
{
    reveal(Seq::filter);
    if rows.len() > 0 {
        let front = rows.drop_last();
        assert forall|i: int| 0 <= i < front.len() implies p(#[trigger] front[i]) by {
            assert(front[i] == rows[i]);
        }
        lemma_filter_all(front, p);
        assert(front.push(rows.last()) =~= rows);
    } else {
        assert(rows.filter(p) =~= rows);
    }
}

/// A sealed envelope is told by its first three characters.
pub proof fn law_an_envelope_is_told_by_its_mark(s: Seq<char>)
    ensures
        is_sealed(s) <==> s.len() >= 3 && s[0] == 'v' && s[1] == '1' && s[2] == ':',
{
    reveal_strlit("v1:");
    if s.len() >= 3 && s[0] == 'v' && s[1] == '1' && s[2] == ':' {
        assert(s.take(3) =~= "v1:"@);
    }
    if is_sealed(s) {
        assert(s.take(3)[0] == "v1:"@[0] && s.take(3)[1] == "v1:"@[1] && s.take(3)[2]
            == "v1:"@[2]);
    }
}

/// With a key, a secret reads as what the cipher made of it, and one that the cipher refused
/// reads as nothing, whatever it looks like.
pub proof fn law_the_cipher_decides(stored: Seq<char>, v: Seq<char>)
    ensures
        opened_value(stored, Some(Some(v))) == Some(v),
        opened_value(stored, Some(None)) is None,
{
}

/// Creating is refused exactly where the org has a variable of the key. Otherwise the variable
/// stands behind what was there as it was asked for, its value held, and shown unless it is a
/// secret.
pub proof fn law_a_variable_is_made_as_asked(
    before: Seq<StoredVar>,
    after: Seq<StoredVar>,
    r: CreateVariableOutcome,
    org: OrgId,
    new: NewVariable,
    actor: Option<UserId>,
    now: Timestamp,
    id: u128,
)
    requires
        created(before, after, r, org, new, actor, now, id),
    ensures
        r is DuplicateKey <==> exists|i: int|
            0 <= i < before.len() && (#[trigger] before[i]).var.org_id == org
                && before[i].var.key@ == new.key@,
        r is DuplicateKey ==> after == before,
        r matches CreateVariableOutcome::Created(v) ==> {
            &&& after == before.push(after.last())
            &&& after.last().var == v
            &&& after.last().raw@ == new.value@
            &&& v.id.0 == id && v.org_id == org && v.key@ == new.key@
            &&& v.is_secret == new.is_secret
            &&& new.is_secret ==> v.value is None
            &&& !new.is_secret ==> opt_view(v.value) == Some(new.value@)
            &&& v.updated_at == now && v.updated_by == actor
        },
{
    let p = keyed(org, new.key@);
    lemma_index_where(before, p);
    if let Some(i) = index_where(before, p) {
        assert(before[i].var.org_id == org);
    } else {
        assert forall|i: int| 0 <= i < before.len() implies !((#[trigger] before[i]).var.org_id
            == org && before[i].var.key@ == new.key@) by {
            assert(!p(before[i]));
        }
        assert(after =~= before.push(after.last()));
    }
}

/// A new value reaches the org's variable with the id and no other; what the variable is
/// called and whether it is a secret stay, and a secret's value is not shown.
pub proof fn law_a_value_is_replaced(
    before: Seq<StoredVar>,
    after: Seq<StoredVar>,
    r: Option<Variable>,
    org: OrgId,
    id: VariableId,
    value: Seq<char>,
    actor: Option<UserId>,
    now: Timestamp,
    i: int,
)
    requires
        rotated(before, after, r, org, id, value, actor, now),
        0 <= i <= before.len(),
        forall|j: int|
            0 <= j < i ==> (#[trigger] before[j]).var.org_id != org || before[j].var.id != id,
        i < before.len() ==> before[i].var.org_id == org && before[i].var.id == id,
    ensures
        i == before.len() ==> r is None && after == before,
        i < before.len() ==> {
            let (a, b) = (after[i], before[i]);
            &&& r == Some(a.var)
            &&& after.len() == before.len()
            &&& a.raw@ == value
            &&& a.var.id == b.var.id && a.var.org_id == b.var.org_id && a.var.key == b.var.key
            &&& a.var.is_secret == b.var.is_secret
            &&& b.var.is_secret ==> a.var.value is None
            &&& !b.var.is_secret ==> opt_view(a.var.value) == Some(value)
            &&& a.var.updated_at == now && a.var.updated_by == actor
            &&& forall|j: int|
                0 <= j < before.len() && j != i ==> #[trigger] after[j] == before[j]
        },
{
    if i < before.len() {
        lemma_index_where_is(before, var_of(org, id), i);
    } else {
        lemma_index_where_none(before, var_of(org, id));
    }
}

/// Deleting takes the org's variables of the id and leaves every other.
pub proof fn law_a_delete_takes_only_its_own(
    rows: Seq<StoredVar>,
    org: OrgId,
    id: VariableId,
    x: StoredVar,
)
    ensures
        without(rows, org, id).contains(x) <==> rows.contains(x) && !(x.var.org_id == org
            && x.var.id == id),
        without(rows, org, id).len() <= rows.len(),
        without(rows, org, id).len() == rows.len() <==> forall|i: int|
            0 <= i < rows.len() ==> (#[trigger] rows[i]).var.org_id != org || rows[i].var.id != id,
{
    let p = |m: StoredVar| !var_of(org, id)(m);
    lemma_filter_members(rows, p);
    lemma_all_kept(rows, p);
    if without(rows, org, id).len() == rows.len() {
        assert forall|i: int| 0 <= i < rows.len() implies (#[trigger] rows[i]).var.org_id != org
            || rows[i].var.id != id by {
            assert(p(rows[i]));
        }
    }
}

proof fn lemma_all_kept(s: Seq<StoredVar>, p: spec_fn(StoredVar) -> bool)
    ensures
        s.filter(p).len() <= s.len(),
        s.filter(p).len() == s.len() <==> forall|i: int| 0 <= i < s.len() ==> p(#[trigger] s[i]),
    decreases s.len(),
{
    reveal(Seq::filter);
    if s.len() > 0 {
        let front = s.drop_last();
        lemma_all_kept(front, p);
        assert(forall|i: int| 0 <= i < front.len() ==> front[i] == #[trigger] s[i]);
        if s.filter(p).len() == s.len() {
            assert forall|i: int| 0 <= i < s.len() implies p(#[trigger] s[i]) by {
                if i < front.len() {
                    assert(p(front[i]));
                }
            }
        }
        if forall|i: int| 0 <= i < s.len() ==> p(#[trigger] s[i]) {
            assert forall|i: int| 0 <= i < front.len() implies p(#[trigger] front[i]) by {
                assert(p(s[i]));
            }
            assert(p(s[s.len() - 1]));
        }
    }
}

/// The operator's list holds exactly the org's variables, in the order of their keys.
pub proof fn law_the_list_is_the_orgs_in_key_order(rows: Seq<StoredVar>, org: OrgId, x: StoredVar)
    ensures
        ({
            let all = stable_sorted(rows.filter(owned_by(org)), key_order());
            &&& all.contains(x) <==> rows.contains(x) && x.var.org_id == org
            &&& forall|i: int, j: int|
                0 <= i < j < all.len() ==> str_le(
                    (#[trigger] all[i]).var.key@,
                    (#[trigger] all[j]).var.key@,
                )
        }),
{
    let all = stable_sorted(rows.filter(owned_by(org)), key_order());
    assert(is_order(key_order())) by {
        assert forall|a: StoredVar, b: StoredVar|
            (#[trigger] key_order()(a, b)) || key_order()(b, a) by {
            lemma_str_le(a.var.key@, b.var.key@, a.var.key@);
        }
        assert forall|a: StoredVar, b: StoredVar, c: StoredVar| #[trigger]
            key_order()(a, b) && #[trigger] key_order()(b, c) implies key_order()(a, c) by {
            lemma_str_le(a.var.key@, b.var.key@, c.var.key@);
        }
    }
    lemma_listing(rows, owned_by(org), key_order(), 0, 0);
    lemma_stable_sorted(rows.filter(owned_by(org)), key_order());
    assert forall|i: int, j: int| 0 <= i < j < all.len() implies str_le(
        (#[trigger] all[i]).var.key@,
        (#[trigger] all[j]).var.key@,
    ) by {
        assert((key_order())(all[i], all[j]));
    }
}

/// Where an org has a key once, the key resolves to the value held for it, secret or not, and
/// only the org's own keys resolve.
pub proof fn law_a_key_resolves_to_its_value(rows: Seq<StoredVar>, org: OrgId, k: Seq<char>)
    requires
        keys_unique(rows),
    ensures
        resolved(rows, org).dom().contains(k) <==> exists|i: int|
            0 <= i < rows.len() && (#[trigger] rows[i]).var.org_id == org && rows[i].var.key@ == k,
        forall|i: int|
            0 <= i < rows.len() && (#[trigger] rows[i]).var.org_id == org && rows[i].var.key@ == k
                ==> resolved(rows, org)[k] == (rows[i].raw@, rows[i].var.is_secret),
    decreases rows.len(),
{
    if rows.len() > 0 {
        let front = rows.drop_last();
        assert forall|i: int, j: int| 0 <= i < j < front.len() implies !((
        #[trigger] front[i]).var.org_id == (#[trigger] front[j]).var.org_id && front[i].var.key@
            == front[j].var.key@) by {
            assert(front[i] == rows[i] && front[j] == rows[j]);
        }
        law_a_key_resolves_to_its_value(front, org, k);
        let n = rows.len() - 1;
        assert(forall|i: int| 0 <= i < n ==> front[i] == #[trigger] rows[i]);
        if exists|i: int|
            0 <= i < rows.len() && (#[trigger] rows[i]).var.org_id == org && rows[i].var.key@
                == k {
            let i = choose|i: int|
                0 <= i < rows.len() && (#[trigger] rows[i]).var.org_id == org && rows[i].var.key@
                    == k;
            if i < n {
                assert(front[i].var.org_id == org);
            }
        }
        if exists|i: int|
            0 <= i < front.len() && (#[trigger] front[i]).var.org_id == org && front[i].var.key@
                == k {
            let i = choose|i: int|
                0 <= i < front.len() && (#[trigger] front[i]).var.org_id == org
                    && front[i].var.key@ == k;
            assert(rows[i].var.org_id == org);
        }
        assert(rows[n] == rows.last());
        assert forall|i: int|
            0 <= i < rows.len() && (#[trigger] rows[i]).var.org_id == org && rows[i].var.key@
                == k implies resolved(rows, org)[k] == (rows[i].raw@, rows[i].var.is_secret) by {
            if i < n {
                assert(front[i] == rows[i]);
                assert(!(rows[i].var.org_id == rows[n].var.org_id && rows[i].var.key@
                    == rows[n].var.key@));
            }
        }
    }
}

/// A stored row more: a plain value stands under its key as it is, a secret as what the cipher
/// made of it, and a secret that cannot be opened adds nothing and takes nothing away.
pub proof fn law_rows_resolve_one_by_one(
    rows: Seq<VarRow>,
    opened: Seq<Option<String>>,
    row: VarRow,
    v: String,
)
    requires
        opened.len() == rows.len() + 1,
    ensures
        ({
            let (m, all) = (resolved_rows(rows, opened), resolved_rows(rows.push(row), opened));
            &&& !row.is_secret ==> all == m.insert(row.key@, (row.value@, false))
            &&& row.is_secret && opened.last() is None ==> all == m
            &&& row.is_secret && opened.last() == Some(v) ==> all == m.insert(
                row.key@,
                (v@, true),
            )
        }),
{
    assert(rows.push(row).drop_last() =~= rows);
}

} // verus!
