//! Cooperative cancellation. A reconciler holds a token that the service
//! owner cancels whenever the shard's intent changes; the reconciler
//! polls it before every outward call.

use vstd::prelude::*;

verus! {

#[verifier::external_type_specification]
#[verifier::external_body]
pub struct ExCancellationToken(tokio_util::sync::CancellationToken);

/// Relies on tokio_util::sync::CancellationToken::is_cancelled. Another
/// task may cancel the token at any moment, so nothing is promised of
/// the result; callers must handle both outcomes.
#[verifier::external_body]
pub fn token_is_cancelled(t: &tokio_util::sync::CancellationToken) -> bool {
    t.is_cancelled()
}

} // verus!
