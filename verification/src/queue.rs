//! The sending half of a connection's outbound queue.

use vstd::prelude::*;

verus! {

/// `tokio::sync::mpsc::UnboundedSender`, carried around as an opaque value.
#[verifier::external_type_specification]
#[verifier::external_body]
#[verifier::reject_recursive_types(T)]
pub struct ExUnboundedSender<T>(tokio::sync::mpsc::UnboundedSender<T>);

/// `warp::ws::Message`, an outbound frame; opaque.
#[verifier::external_type_specification]
#[verifier::external_body]
pub struct ExMessage(warp::ws::Message);

/// `warp::Error`, a transport failure travelling through a queue; opaque.
#[verifier::external_type_specification]
#[verifier::external_body]
pub struct ExTransportError(warp::Error);

/// Handle on which outbound frames for one connection are enqueued.
pub type Sender = tokio::sync::mpsc::UnboundedSender<Result<warp::ws::Message, warp::Error>>;

/// Application close code carried by a forced disconnect.
pub const KICK_CODE: u16 = 4000;

/// Enqueues a close directive with `code` and `reason` on `tx` through
/// `UnboundedSender::send`, with the frame built by `Message::close_with`.
/// The result says whether the queue accepted the frame; it refuses once its
/// receiving half is closed or dropped, which nothing here can foresee.
#[verifier::external_body]
pub(crate) fn send_close(tx: &Sender, code: u16, reason: &'static str) -> (delivered: bool) {
    tx.send(Ok(warp::ws::Message::close_with(code, reason))).is_ok()
}

/// Enqueues a forced-disconnect directive on `tx`.
/// Returns `false` when the queue is dead; the caller carries on.
pub fn send_kick(tx: &Sender) -> (delivered: bool) {
    send_close(tx, KICK_CODE, "kick")
}

} // verus!
