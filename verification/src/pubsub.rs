//! Trusted surface of the per-channel broadcast primitive.
//!
//! Each pub/sub channel is a `tokio::sync::broadcast` endpoint: a bounded
//! ring buffer whose receivers progress independently and may lag. The
//! endpoint values are opaque here; what a send returns depends on how many
//! receivers are attached at that moment, so nothing is promised about it.
//! The store's own bookkeeping around these endpoints is verified.

use vstd::prelude::*;

verus! {

#[verifier::external_type_specification]
#[verifier::external_body]
#[verifier::reject_recursive_types(T)]
pub struct ExSender<T>(tokio::sync::broadcast::Sender<T>);

#[verifier::external_type_specification]
#[verifier::external_body]
#[verifier::reject_recursive_types(T)]
pub struct ExReceiver<T>(tokio::sync::broadcast::Receiver<T>);

#[verifier::external_type_specification]
#[verifier::external_body]
#[verifier::reject_recursive_types(T)]
pub struct ExSendError<T>(tokio::sync::broadcast::error::SendError<T>);

/// Relies on tokio's `broadcast::channel`: creates a sender and a first
/// receiver for a ring of the given capacity. It panics outside the stated
/// capacity range, never inside it.
pub assume_specification<T: Clone>[ tokio::sync::broadcast::channel::<T> ](
    capacity: usize,
) -> (tokio::sync::broadcast::Sender<T>, tokio::sync::broadcast::Receiver<T>)
    requires
        1 <= capacity <= usize::MAX / 2,
;

/// Relies on tokio's `broadcast::Sender::send`: queues the value and
/// reports how many receivers were attached, or hands the value back when
/// there is none. The count depends on the channel's runtime state, so
/// nothing is stated of it.
pub assume_specification<T>[ tokio::sync::broadcast::Sender::<T>::send ](
    sender: &tokio::sync::broadcast::Sender<T>,
    value: T,
) -> Result<usize, tokio::sync::broadcast::error::SendError<T>>
;

/// Relies on tokio's `broadcast::Sender::subscribe`: attaches a new
/// receiver that will see values sent after this call.
pub assume_specification<T>[ tokio::sync::broadcast::Sender::<T>::subscribe ](
    sender: &tokio::sync::broadcast::Sender<T>,
) -> tokio::sync::broadcast::Receiver<T>
;

} // verus!
