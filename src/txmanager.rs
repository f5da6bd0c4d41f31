//! Outbound channels by key: one live channel per user, or per room with a
//! running session.
use std::collections::HashMap;
use std::hash::Hash;
use tokio::sync::mpsc::UnboundedSender;
use vstd::prelude::*;
use vstd::std_specs::hash::obeys_key_model;

use crate::error::AppError;

verus! {

#[verifier::external_type_specification]
#[verifier::external_body]
#[verifier::reject_recursive_types(T)]
pub struct ExUnboundedSender<T>(UnboundedSender<T>);

/// Relies on tokio's `UnboundedSender::send`: it queues the message and
/// reports `false` only when the receiving end is gone.
#[verifier::external_body]
fn channel_send<M>(tx: &UnboundedSender<M>, msg: M) -> (r: bool) {
    tx.send(msg).is_ok()
}

#[verifier::reject_recursive_types(M)]
pub struct TxManager<T: Eq + Hash, M> {
    conn: HashMap<T, UnboundedSender<M>>,
}

impl<T: Eq + Hash, M> TxManager<T, M> {
    /// The registered channels by key.
    pub closed spec fn view(&self) -> Map<T, UnboundedSender<M>> {
        self.conn@
    }

    /// Nobody registered.
    pub fn new() -> (r: Self)
        ensures
            r@ == Map::<T, UnboundedSender<M>>::empty(),
    {
        TxManager { conn: HashMap::new() }
    }

    /// Registers `tx` under `uid` unless a channel is registered there
    /// already, in which case nothing changes; returns whether it did.
    pub fn insert(&mut self, uid: T, tx: UnboundedSender<M>) -> (r: bool)
        requires
            obeys_key_model::<T>(),
        ensures
            r == !old(self)@.contains_key(uid),
            r ==> final(self)@ == old(self)@.insert(uid, tx),
            !r ==> final(self)@ == old(self)@,
    {
        broadcast use vstd::std_specs::hash::group_hash_axioms;

        if self.conn.contains_key(&uid) {
            false
        } else {
            self.conn.insert(uid, tx);
            true
        }
    }

    /// Removes the channel registered under `uid`; returns whether there
    /// was one.
    pub fn delete(&mut self, uid: &T) -> (r: bool)
        requires
            obeys_key_model::<T>(),
        ensures
            r == old(self)@.contains_key(*uid),
            final(self)@ == old(self)@.remove(*uid),
    {
        broadcast use vstd::std_specs::hash::group_hash_axioms;

        if !self.conn.contains_key(uid) {
            assert(old(self)@.remove(*uid) =~= old(self)@);
            false
        } else {
            self.conn.remove(uid);
            true
        }
    }

    /// Sends `msg` on the channel registered under `uid`. Fails with
    /// `TxNotExist` when there is none, and with `MpscSend` when its
    /// receiving end is gone.
    pub fn send(&self, uid: &T, msg: M) -> (r: Result<(), AppError>)
        requires
            obeys_key_model::<T>(),
        ensures
            !self@.contains_key(*uid) <==> r == Err::<(), AppError>(AppError::TxNotExist),
            r is Err ==> r == Err::<(), AppError>(AppError::TxNotExist) || r == Err::<
                (),
                AppError,
            >(AppError::MpscSend),
    {
        broadcast use vstd::std_specs::hash::group_hash_axioms;

        match self.conn.get(uid) {
            None => Err(AppError::TxNotExist),
            Some(tx) => {
                if channel_send(tx, msg) {
                    Ok(())
                } else {
                    Err(AppError::MpscSend)
                }
            },
        }
    }
}

} // verus!
