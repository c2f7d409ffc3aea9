use vstd::prelude::*;

use std::sync::Arc;

verus! {

/// The position feed's sender half: a watch-style channel in which a write
/// replaces the previous value, so a reader that checks late sees only the
/// most recent tick, never a backlog.
#[verifier::external_type_specification]
#[verifier::external_body]
#[verifier::reject_recursive_types(T)]
pub struct ExWatchSender<T>(tokio::sync::watch::Sender<T>);

/// Relies on `tokio::sync::watch::Sender::send`: replaces the watched value
/// without blocking on readers; it fails only when every receiver is gone,
/// and a missed publish is harmless because the next one replaces it anyway.
#[verifier::external_body]
pub(crate) fn publish_tick(sender: &Arc<tokio::sync::watch::Sender<usize>>, tick: usize) {
    let _ = sender.send(tick);
}

} // verus!
