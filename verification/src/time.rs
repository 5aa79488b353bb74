//! The one place the library reads the wall clock.

use vstd::prelude::*;

use crate::store::PreferenceStore;

verus! {

/// The current time as Unix seconds.
///
/// Relies on chrono's `Utc::now` and `DateTime::timestamp`: the wall clock,
/// of which nothing can be promised.
#[verifier::external_body]
fn now_ts() -> i64 {
    chrono::Utc::now().timestamp()
}

/// Whether reporting is deferred right now: the run's entry gate. While it
/// holds, the whole aggregation is skipped and the view stays empty. A
/// store with no deferral instant is never deferred, whatever the clock
/// says; the exact decision for a known instant is
/// [`PreferenceStore::is_deferred`].
pub fn is_deferred_now(store: &PreferenceStore) -> (r: bool)
    ensures
        store.deferred_until is None ==> r == false,
{
    let now = now_ts();
    store.is_deferred(now)
}

} // verus!
