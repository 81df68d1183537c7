//! The subscription itself: its name, id, state, tenant, offer and spending limit.
use vstd::prelude::*;
use crate::json::Json;
use crate::tools::{text, text_at};

verus! {

/// The report on a subscription, one `key=value` line per field.
pub open spec fn table_of(body: Json) -> Seq<char> {
    "displayName="@ + text_at(body, "/displayName"@) + "\nsubscriptionId="@ + text_at(body, "/subscriptionId"@)
        + "\nstate="@ + text_at(body, "/state"@) + "\ntenantId="@ + text_at(body, "/tenantId"@) + "\nquotaId="@
        + text_at(body, "/subscriptionPolicies/quotaId"@) + "\nspendingLimit="@ + text_at(
        body,
        "/subscriptionPolicies/spendingLimit"@,
    )
}

/// The report on a subscription: display name, id, state, tenant, quota id and spending limit.
pub fn table(body: &Json) -> (r: String)
    ensures
        r@ == table_of(*body),
{
    let mut r = String::from_str("displayName=");
    r.append(text(body, "/displayName"));
    r.append("\nsubscriptionId=");
    r.append(text(body, "/subscriptionId"));
    r.append("\nstate=");
    r.append(text(body, "/state"));
    r.append("\ntenantId=");
    r.append(text(body, "/tenantId"));
    r.append("\nquotaId=");
    r.append(text(body, "/subscriptionPolicies/quotaId"));
    r.append("\nspendingLimit=");
    r.append(text(body, "/subscriptionPolicies/spendingLimit"));
    r
}

} // verus!
