//! The last screen.

use crate::text::{lowered, occurs_ignoring_ascii_case, occurs_in};
use vstd::prelude::*;

verus! {

/// The screen that shows how the job ended.
pub struct DoneScreen;

/// Whether a failure reads like a lack of permission: it says
/// `permission denied` or `operation not permitted`, in any mix of case.
pub open spec fn reads_like_denial(s: Seq<char>) -> bool {
    occurs_in("permission denied"@, lowered(s)) || occurs_in(
        "operation not permitted"@,
        lowered(s),
    )
}

/// Lower-casing text that holds no upper-case letter changes nothing.
proof fn lemma_lowered_fixed(s: Seq<char>)
    requires
        forall|i: int| 0 <= i < s.len() ==> !('A' <= #[trigger] s[i] && s[i] <= 'Z'),
    ensures
        lowered(s) == s,
{
    assert(lowered(s) =~= s);
}

/// Whether a failure reads like a lack of permission.
pub fn contains_perm_denied(s: &str) -> (r: bool)
    ensures
        r == reads_like_denial(s@),
{
    proof {
        reveal_strlit("permission denied");
        reveal_strlit("operation not permitted");
        lemma_lowered_fixed("permission denied"@);
        lemma_lowered_fixed("operation not permitted"@);
    }
    occurs_ignoring_ascii_case("permission denied", s) || occurs_ignoring_ascii_case(
        "operation not permitted",
        s,
    )
}

} // verus!
