//! The reply to `/roast`.
use vstd::prelude::*;
use crate::utils::{decimal, decimal_string};

verus! {

/// The reply to `/roast`: a mention of the target, then the roast.
pub open spec fn spec_roast_reply(target_id: u64, roast: Seq<char>) -> Seq<char> {
    "**Roasting <@"@ + decimal(target_id as nat) + ">:**\n\n"@ + roast
}

/// The reply to `/roast`.
pub fn roast_reply(target_id: u64, roast: &str) -> (s: String)
    ensures
        s@ == spec_roast_reply(target_id, roast@),
{
    let mut s = String::from_str("**Roasting <@");
    s.append(decimal_string(target_id).as_str());
    s.append(">:**\n\n");
    s.append(roast);
    s
}

} // verus!
