//! Cross-tenant reads: the only way out of the org-scoped repositories.

use vstd::prelude::*;

use crate::ids::OrgId;
use crate::strings::{
    i64_text, lemma_number_then_hyphen, opt_str_view, owned, signed_decimal,
};
use crate::target::{Target, TargetView};
use crate::time::{Timestamp, NANOS_PER_MILLI};

verus! {

/// Source of every enabled target across every organisation. Each target is paired with
/// its owning org, so that what follows can resolve channels tenant-scoped.
pub trait EnabledTargetSource {
    /// Every target of every live org.
    spec fn holdings(&self) -> Seq<(OrgId, TargetView)>;

    fn list_all_enabled_targets(&self) -> (out: Vec<(OrgId, Target)>)
        ensures
            out@.map_values(|e: (OrgId, Target)| (e.0, e.1@)) == self.holdings().filter(
                |e: (OrgId, TargetView)| e.1.enabled,
            ),
    ;
}

/// Keyset cursor over `(org_id, target_id)` ascending. `None` means "start from the
/// beginning"; a later page passes the last row's pair to skip past it.
#[derive(Debug, Clone, Copy, PartialEq, Eq, Structural)]
pub struct PublicTargetCursor {
    pub org_id: OrgId,
    pub target_id: u128,
}

impl PublicTargetCursor {
    pub fn after(org_id: OrgId, target_id: u128) -> (r: Self)
        ensures
            r == (PublicTargetCursor { org_id, target_id }),
    {
        PublicTargetCursor { org_id, target_id }
    }
}

/// The millisecond since 1970 of the latest change.
pub open spec fn latest_millis(latest: Option<Timestamp>) -> int {
    match latest {
        Some(t) => t.nanos as int / NANOS_PER_MILLI as int,
        None => 0,
    }
}

/// The text of a digest.
pub open spec fn digest_text(digest: Option<Seq<char>>) -> Seq<char> {
    match digest {
        Some(d) => d,
        None => Seq::<char>::empty(),
    }
}

/// A region's validator as text: how many targets it has, when the latest of them changed,
/// in milliseconds since 1970, and a digest over them all, quoted.
pub open spec fn etag_text(count: int, latest: Option<Timestamp>, digest: Option<Seq<char>>) -> Seq<
    char,
> {
    "\""@ + signed_decimal(count) + "-"@ + signed_decimal(latest_millis(latest)) + "-"@
        + digest_text(digest) + "\""@
}

/// The validator of one region's configuration, from its count of targets, the latest
/// change and the digest.
pub fn region_pull_etag(count: i64, latest: Option<Timestamp>, digest: Option<&str>) -> (r: String)
    requires
        latest matches Some(t) ==> t.wf(),
    ensures
        r@ == etag_text(count as int, latest, opt_str_view(digest)),
        ({
            let millis = match latest {
                Some(t) => t.nanos as int / 1_000_000,
                None => 0,
            };
            let sum = match digest {
                Some(d) => d@,
                None => Seq::<char>::empty(),
            };
            r@ == "\""@ + signed_decimal(count as int) + "-"@ + signed_decimal(millis) + "-"@ + sum
                + "\""@
        }),
{
    let millis: i64 = match latest {
        Some(t) => t.timestamp_millis(),
        None => 0,
    };
    let mut r = owned("\"");
    r.append(i64_text(count).as_str());
    r.append("-");
    r.append(i64_text(millis).as_str());
    r.append("-");
    if let Some(d) = digest {
        r.append(d);
    }
    r.append("\"");
    assert(r@ =~= etag_text(count as int, latest, opt_str_view(digest)));
    r
}

/// A validator between its quotes.
spec fn etag_body(count: int, millis: int, digest: Seq<char>) -> Seq<char> {
    signed_decimal(count) + seq!['-'] + (signed_decimal(millis) + seq!['-'] + digest)
}

proof fn lemma_etag_body(count: int, latest: Option<Timestamp>, digest: Option<Seq<char>>)
    ensures
        ({
            let e = etag_text(count, latest, digest);
            e.len() >= 2 && e.subrange(1, e.len() - 1) == etag_body(
                count,
                latest_millis(latest),
                digest_text(digest),
            )
        }),
{
    reveal_strlit("\"");
    reveal_strlit("-");
    assert("\""@ =~= seq!['"']);
    assert("-"@ =~= seq!['-']);
    let c = signed_decimal(count);
    let m = signed_decimal(latest_millis(latest));
    let d = digest_text(digest);
    let e = etag_text(count, latest, digest);
    assert(e == seq!['"'] + c + seq!['-'] + m + seq!['-'] + d + seq!['"']);
    assert(e.subrange(1, e.len() - 1) =~= c + seq!['-'] + (m + seq!['-'] + d));
}

/// A validator tells its region's configurations apart: with the count of targets, the
/// millisecond of the latest change or the digest, it changes too. An empty digest is no
/// digest, and a region without a change reads as one of 1970.
pub proof fn law_etag_changes_with_the_configuration(
    count: int,
    latest: Option<Timestamp>,
    digest: Option<Seq<char>>,
    count2: int,
    latest2: Option<Timestamp>,
    digest2: Option<Seq<char>>,
)
    requires
        count != count2 || latest_millis(latest) != latest_millis(latest2) || digest_text(digest)
            != digest_text(digest2),
    ensures
        etag_text(count, latest, digest) != etag_text(count2, latest2, digest2),
{
    if etag_text(count, latest, digest) == etag_text(count2, latest2, digest2) {
        let (m, d) = (latest_millis(latest), digest_text(digest));
        let (m2, d2) = (latest_millis(latest2), digest_text(digest2));
        lemma_etag_body(count, latest, digest);
        lemma_etag_body(count2, latest2, digest2);
        lemma_number_then_hyphen(
            count,
            signed_decimal(m) + seq!['-'] + d,
            count2,
            signed_decimal(m2) + seq!['-'] + d2,
        );
        lemma_number_then_hyphen(m, d, m2, d2);
    }
}

/// The largest page of the cross-tenant walk.
pub const MAX_PAGE: usize = 2_048;

/// The page size of the cross-tenant walk.
pub fn walk_limit(limit: usize) -> (r: i64)
    ensures
        limit > 2_048 ==> r == 2_048,
        1 <= limit <= 2_048 ==> r == limit,
        r == (if limit < 1 {
            1int
        } else if limit > MAX_PAGE {
            MAX_PAGE as int
        } else {
            limit as int
        }),
{
    if limit < 1 {
        1
    } else if limit > MAX_PAGE {
        MAX_PAGE as i64
    } else {
        limit as i64
    }
}

} // verus!
