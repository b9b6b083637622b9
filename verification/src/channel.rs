//! The outbound half of the duplex connection manager.
//!
//! At session start the live transport is split once into an outbound and an
//! inbound half, each driven by its own long-running path. The writer path
//! consumes wire frames from a multi-producer single-consumer queue and
//! writes them to the transport; `DuplexChannel` is the handle callers
//! enqueue through. Sending is non-blocking and fire-and-forget: there is no
//! acknowledgment, and a message appears in a room history only when the
//! server reflects it back through the inbound path.

use vstd::prelude::*;

use std::sync::mpsc::Sender;

use crate::messages::ChatMessage;
use crate::wire::encode_chat_message;

verus! {

#[verifier::external_type_specification]
#[verifier::external_body]
#[verifier::reject_recursive_types(T)]
pub struct ExSender<T>(Sender<T>);

/// Relies on std's `mpsc::Sender::send`: hands the frame to the queue's one
/// receiver, failing only when the receiver is gone. Nothing is promised of
/// delivery: this path is fire-and-forget.
#[verifier::external_body]
fn enqueue_frame(tx: &Sender<String>, frame: String) -> (accepted: bool) {
    match tx.send(frame) {
        Ok(()) => true,
        Err(_) => false,
    }
}

/// The handle through which outbound intents reach the writer path.
pub struct DuplexChannel {
    tx: Sender<String>,
}

impl DuplexChannel {
    /// Wraps the sending end of the writer path's queue.
    pub fn new(tx: Sender<String>) -> Self {
        DuplexChannel { tx }
    }

    /// Serializes the intent to its wire text and enqueues it: non-blocking,
    /// no acknowledgment. A frame is silently lost when the writer path is
    /// gone or its transport write fails; the caller learns only whether the
    /// enqueue itself was accepted.
    pub fn send(&self, intent: &ChatMessage) -> bool {
        let frame = encode_chat_message(intent);
        enqueue_frame(&self.tx, frame)
    }
}

} // verus!
