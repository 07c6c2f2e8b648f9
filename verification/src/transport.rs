//! The producer side of the transport: an ordered, unbounded,
//! single-producer/single-consumer channel owned by the host. The host
//! creates the channel, hands the engine the sender, and gives the receiver
//! to whatever consumer renders the stream. Delivery is best effort: a send
//! can only fail because the receiver no longer exists, and the engine
//! records that outcome without letting it alter the sort.

use vstd::prelude::*;
use crate::model::Operation;

verus! {

/// `std::sync::mpsc::Sender`, the producer half of the transport, made
/// visible to the verifier as an opaque type so it can stand in signatures.
#[verifier::external_type_specification]
#[verifier::external_body]
#[verifier::reject_recursive_types(T)]
pub struct ExSender<T>(std::sync::mpsc::Sender<T>);

/// The explicit, named outcome of one best-effort send.
#[derive(Clone, Copy, PartialEq, Eq, Structural, Debug)]
pub enum Delivery {
    /// The operation was queued for the consumer.
    Delivered,
    /// The receiver no longer exists; the operation was discarded.
    Skipped,
}

/// Relies on `std::sync::mpsc::Sender::send`: queues the value for the
/// receiver, preserving submission order, and fails only when the receiver
/// has been dropped. Which outcome occurs depends on the consumer's
/// lifetime, so nothing is promised of it; callers state what holds either
/// way.
#[verifier::external_body]
pub(crate) fn send_operation(tx: &std::sync::mpsc::Sender<Operation>, op: Operation) -> (d:
    Delivery) {
    match tx.send(op) {
        Ok(()) => Delivery::Delivered,
        Err(_) => Delivery::Skipped,
    }
}

} // verus!
