//! Laws of the progress state machine, stated once for all inputs and proved.

use vstd::prelude::*;
use crate::identity::Identity;
use crate::progress::{completed_record, fresh_record, leveled_record, next_count, UserProgress};

verus! {

/// The completion counter after `n` further successful completions have been
/// applied to a record whose counter reads `start`: `next_count`, `n` times.
pub open spec fn count_after(start: u64, n: nat) -> u64
    decreases n,
{
    if n == 0 {
        start
    } else {
        next_count(count_after(start, (n - 1) as nat))
    }
}

/// While the counter stays representable it counts exactly: `n` successful
/// completions move it from `start` to `start + n` — one per call, no skips,
/// no double counting.
pub proof fn lemma_count_after_exact(start: u64, n: nat)
    requires
        start + n <= u64::MAX,
    ensures
        count_after(start, n) == start + n,
    decreases n,
{
    if n > 0 {
        lemma_count_after_exact(start, (n - 1) as nat);
    }
}

/// For every run of `n` successful completions on a freshly created record,
/// the counter equals `n`, the number of successful calls. (Each successful
/// `complete_module` moves the counter by `next_count`, so a run of them is
/// `count_after`; the bound keeps the run below the point where the counter
/// would saturate.)
pub proof fn lemma_completion_count(owner: Identity, n: nat)
    requires
        n <= u64::MAX,
    ensures
        count_after(fresh_record(owner).total_modules_completed, n) == n,
{
    lemma_count_after_exact(0, n);
}

/// The completion counter never moves down.
pub proof fn lemma_count_monotonic(t: u64)
    ensures
        next_count(t) >= t,
{
}

/// Completion accounting and level updates commute: applying one and then
/// the other yields the same record in either order.
pub proof fn lemma_complete_level_commute(r: UserProgress, level: u8)
    ensures
        completed_record(leveled_record(r, level)) == leveled_record(completed_record(r), level),
{
}

} // verus!
