//! Month partitions of the time-retention tables.

use vstd::prelude::*;

use crate::strings::owned;

verus! {

/// Months provisioned ahead, so a lagging maintenance run still has a partition.
pub const MONTHS_AHEAD: i32 = 3;

/// Months provisioned back.
pub const MONTHS_BACK: i32 = 1;

/// The tables that are partitioned by month.
pub open spec fn tables() -> Seq<Seq<char>> {
    seq!["login_attempts"@, "quota_events"@, "org_audit_log"@, "credential_events"@]
}

/// The tables that are partitioned by month.
pub fn partitioned_tables() -> (r: Vec<&'static str>)
    ensures
        r@.map_values(|s: &'static str| s@) == tables(),
        r@.len() == 4,
        r@[0]@ == "login_attempts"@,
        r@[1]@ == "quota_events"@,
        r@[2]@ == "org_audit_log"@,
        r@[3]@ == "credential_events"@,
{
    let mut v: Vec<&'static str> = Vec::new();
    v.push("login_attempts");
    v.push("quota_events");
    v.push("org_audit_log");
    v.push("credential_events");
    assert(v@.map_values(|s: &'static str| s@) =~= tables());
    v
}

/// The statement that counts the rows of a table's default partition: rows there were
/// never carved into a month.
pub fn default_partition_sql(table: &str) -> (r: String)
    ensures
        r@ == "SELECT count(*) FROM "@ + table@ + "_default"@,
{
    let mut s = owned("SELECT count(*) FROM ");
    s.append(table);
    s.append("_default");
    s
}

/// Partitions reach three months ahead and one back.
pub proof fn law_how_far_partitions_reach()
    ensures
        MONTHS_AHEAD == 3,
        MONTHS_BACK == 1,
{
}

} // verus!
