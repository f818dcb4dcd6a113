//! The queueing primitives the core runs on: crossbeam channels carry records
//! from producers to the consumer and pack jobs to the saver, and a wait
//! group is the flush barrier. The channel endpoints are opaque here; what
//! the consumer does with received values is verified where it happens.

use vstd::prelude::*;

verus! {

/// Declares crossbeam_channel's `Sender` so it can stand in signatures and
/// fields; its values are opaque here.
#[verifier::external_type_specification]
#[verifier::external_body]
#[verifier::reject_recursive_types(T)]
pub struct ExSender<T>(crossbeam_channel::Sender<T>);

/// Declares crossbeam_channel's `Receiver`; its values are opaque here.
#[verifier::external_type_specification]
#[verifier::external_body]
#[verifier::reject_recursive_types(T)]
pub struct ExReceiver<T>(crossbeam_channel::Receiver<T>);

/// Declares crossbeam_utils' `WaitGroup`, the flush barrier; dropping every
/// clone releases a waiter.
#[verifier::external_type_specification]
#[verifier::external_body]
pub struct ExWaitGroup(crossbeam_utils::sync::WaitGroup);

/// Relies on crossbeam_channel's `unbounded` and `bounded` constructors: the
/// two endpoints of one new queue, unbounded when no length is given.
#[verifier::external_body]
pub fn chan<T>(len: Option<usize>) -> (crossbeam_channel::Sender<T>, crossbeam_channel::Receiver<
    T,
>) {
    match len {
        None => crossbeam_channel::unbounded(),
        Some(n) => crossbeam_channel::bounded(n),
    }
}

/// Relies on crossbeam_channel's `Sender::send`: queues the value, unless
/// every receiver is gone; the result reports which of the two happened.
#[verifier::external_body]
pub fn chan_send<T>(s: &crossbeam_channel::Sender<T>, v: T) -> (accepted: bool) {
    s.send(v).is_ok()
}

/// Relies on crossbeam_utils' `WaitGroup`: cloning registers one more holder
/// of the barrier; nothing is assumed about the returned handle.
pub assume_specification[ <crossbeam_utils::sync::WaitGroup as Clone>::clone ](
    w: &crossbeam_utils::sync::WaitGroup,
) -> crossbeam_utils::sync::WaitGroup
;

} // verus!
