use vstd::prelude::*;

verus! {

/// How many completions one poller pass drains at most.
pub const POLL_BUDGET: usize = 16;

/// Empty passes up to this count make the poller yield; above it, it sleeps.
pub const BACKOFF_YIELD_LIMIT: u32 = 10;

/// The empty-pass counter saturates here, capping the sleep at about one
/// millisecond.
pub const BACKOFF_MAX_COUNT: u32 = 20;

/// What the poller task does after one pass.
#[derive(Clone, Copy, Debug, PartialEq, Eq, Structural)]
pub enum PollerAction {
    /// Completions were delivered: poll again at once.
    Continue,
    /// Nothing yet, but recently busy: yield cooperatively.
    Yield,
    /// Idle for a while: sleep this many microseconds.
    Sleep(u64),
}

/// The poller's adaptive backoff: a pass that delivered completions resets the
/// empty-pass counter and continues at once; an empty pass bumps the counter
/// (saturating at `BACKOFF_MAX_COUNT`), yields while the counter is at most
/// `BACKOFF_YIELD_LIMIT`, and otherwise sleeps `2^(counter - 10)` microseconds
/// — never more than 1024, so pickup latency after an idle period stays
/// bounded by about a millisecond.
pub fn backoff_update(empty_count: u32, completed: usize) -> (r: (u32, PollerAction))
    ensures
        completed > 0 ==> r == (0u32, PollerAction::Continue),
        completed == 0 ==> r.0 == if empty_count + 1 < BACKOFF_MAX_COUNT {
            empty_count + 1
        } else {
            BACKOFF_MAX_COUNT as int
        },
        completed == 0 && r.0 <= BACKOFF_YIELD_LIMIT ==> r.1 == PollerAction::Yield,
        completed == 0 && r.0 > BACKOFF_YIELD_LIMIT ==> r.1 == PollerAction::Sleep(
            1u64 << ((r.0 - BACKOFF_YIELD_LIMIT) as u64),
        ),
        forall|us: u64| r.1 == PollerAction::Sleep(us) ==> 2 <= us <= 1024,
{
    if completed > 0 {
        (0, PollerAction::Continue)
    } else {
        let next: u32 = if empty_count < BACKOFF_MAX_COUNT - 1 {
            empty_count + 1
        } else {
            BACKOFF_MAX_COUNT
        };
        if next <= BACKOFF_YIELD_LIMIT {
            (next, PollerAction::Yield)
        } else {
            let e: u64 = (next - BACKOFF_YIELD_LIMIT) as u64;
            proof {
                assert(1u64 << e <= 1024 && 1u64 << e >= 2) by (bit_vector)
                    requires
                        1 <= e <= 10,
                ;
            }
            (next, PollerAction::Sleep(1u64 << e))
        }
    }
}

} // verus!
