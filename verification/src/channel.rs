//! The outbound queue handle of a connection.
//!
//! Each connection owns a bounded FIFO queue; the engine holds the sending
//! end and the transport adapter drains the receiving end. The queue is
//! tokio's bounded mpsc channel.

use crate::events::UpdateMessage;
use vstd::prelude::*;

verus! {

/// tokio's bounded mpsc sender. Opaque to the engine: it is stored,
/// probed and handed events, never inspected.
#[verifier::external_type_specification]
#[verifier::external_body]
#[verifier::reject_recursive_types(T)]
pub struct ExSender<T>(tokio::sync::mpsc::Sender<T>);

/// Relies on tokio's `Sender::try_send`: a non-blocking enqueue that fails
/// exactly when the queue is full or its receiver is gone. Whether a given
/// call succeeds depends on the peer, so nothing is promised of the result.
#[verifier::external_body]
pub fn try_send_update(s: &tokio::sync::mpsc::Sender<UpdateMessage>, u: &UpdateMessage) -> bool {
    s.try_send(u.clone()).is_ok()
}

} // verus!
