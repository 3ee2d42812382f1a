//! The channel fabric: rendezvous channels between task frames, from crossbeam.
use vstd::prelude::*;
use crossbeam_channel::{Receiver, Select, Sender};
use crate::interpreter::{TaskID, Value};

verus! {

/// crossbeam's sending end, carried through as an opaque value.
#[verifier::external_type_specification]
#[verifier::external_body]
#[verifier::reject_recursive_types(T)]
pub struct ExSender<T>(Sender<T>);

/// crossbeam's receiving end, carried through as an opaque value.
#[verifier::external_type_specification]
#[verifier::external_body]
#[verifier::reject_recursive_types(T)]
pub struct ExReceiver<T>(Receiver<T>);

/// Relies on crossbeam_channel::bounded(0): a channel of capacity zero, on which
/// a send and a receive pair up.
#[verifier::external_body]
pub(crate) fn rendezvous() -> (Sender<Value>, Receiver<Value>) {
    crossbeam_channel::bounded(0)
}

/// Relies on Sender::clone: another handle on the same channel.
#[verifier::external_body]
pub(crate) fn clone_sender<T>(s: &Sender<T>) -> Sender<T> {
    s.clone()
}

/// Relies on Sender::send: blocks until the message is handed over, and fails
/// only when the channel is disconnected.
#[verifier::external_body]
pub(crate) fn send<T>(s: &Sender<T>, msg: T) -> (ok: bool) {
    s.send(msg).is_ok()
}

/// Relies on Receiver::recv: blocks until a message arrives, and fails only when
/// the channel is empty and disconnected.
#[verifier::external_body]
pub(crate) fn recv<T>(r: &Receiver<T>) -> Option<T> {
    r.recv().ok()
}

/// Relies on crossbeam's Select: waits until one of the receivers is ready and
/// receives on it. The index is that of the receiver's entry in `rs`, and is the
/// index that `Select::recv` handed out when the receivers were added in order.
#[verifier::external_body]
pub(crate) fn select_receive(rs: &Vec<(TaskID, Receiver<Value>)>) -> (r: (usize, Option<Value>))
    requires
        rs.len() > 0,
    ensures
        r.0 < rs.len(),
{
    let mut sel = Select::new();
    for entry in rs.iter() {
        sel.recv(&entry.1);
    }
    let oper = sel.select();
    let i = oper.index();
    (i, oper.recv(&rs[i].1).ok())
}

} // verus!
