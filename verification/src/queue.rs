//! The two ends of a `chan` channel.
//!
//! A channel is shared with other threads, so nothing is known here of what a
//! receive brings: callers decide on every possible outcome.

use vstd::prelude::*;

verus! {

/// `chan::Sender`, the sending half of a channel.
#[verifier::external_type_specification]
#[verifier::external_body]
#[verifier::reject_recursive_types(T)]
pub struct ExSender<T>(chan::Sender<T>);

/// `chan::Receiver`, the receiving half of a channel.
#[verifier::external_type_specification]
#[verifier::external_body]
#[verifier::reject_recursive_types(T)]
pub struct ExReceiver<T>(chan::Receiver<T>);

/// `chan::Sender::send` puts a value on the channel. It returns nothing, and
/// nothing is claimed of it. On a channel without a bound it returns at once;
/// on a bounded one it waits while the buffer is full.
pub assume_specification<T>[ chan::Sender::<T>::send ](sender: &chan::Sender<T>, val: T);

/// `chan::Receiver::recv` waits for the next value. `None` means that every
/// sender is gone and the buffer is empty. Which value arrives depends on the
/// other threads, so nothing is claimed of the result.
pub assume_specification<T>[ chan::Receiver::<T>::recv ](receiver: &chan::Receiver<T>) -> (received:
    Option<T>);

/// `Sender::clone` makes another handle on the same channel. Two senders are
/// equal when they carry the same channel id, and a clone carries the id of
/// the sender it was made from.
pub assume_specification<T>[ <chan::Sender<T> as Clone>::clone ](sender: &chan::Sender<T>) -> (copy:
    chan::Sender<T>)
    ensures
        copy == *sender,
;

/// `Receiver::clone` makes another handle on the same channel. Two receivers
/// are equal when they carry the same channel id, and a clone carries the id
/// of the receiver it was made from.
pub assume_specification<T>[ <chan::Receiver<T> as Clone>::clone ](receiver: &chan::Receiver<T>) -> (copy:
    chan::Receiver<T>)
    ensures
        copy == *receiver,
;

} // verus!
