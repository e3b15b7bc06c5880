//! What the controller offers to the part of a program that talks to the
//! server: identifiers come as texts, sequence numbers as small numbers.

use crate::controller::active_transactions::unsaved_transactions::{
    none_unsaved, UnsavedTransaction,
};
use crate::controller::execution::execute_operation::TransactionError;
use crate::controller::execution::receive_multiplayer_operations::{
    applied_offline, received, TransactionSummary,
};
use crate::controller::operations::operation::{ops_wf, Operation};
use crate::controller::GridController;
use crate::grid::ids::{parse_uuid, uuid_value};
use vstd::prelude::*;

verus! {

/// Why a message of the server could not be dealt with.
#[derive(Debug, PartialEq, Eq)]
pub enum ReceiveError {
    /// The text given for the id of the transaction is no UUID.
    InvalidTransactionId,
    /// An operation could not be applied.
    Transaction(TransactionError),
}

impl GridController {
    /// The sequence number of the last transaction that the server
    /// confirmed and that is applied here.
    pub fn last_sequence_num(&self) -> (r: u64)
        ensures
            r == self.last_sequence_num,
    {
        self.last_sequence_num
    }

    /// Sets the sequence number of the last confirmed transaction.
    pub fn set_last_sequence_num(&mut self, sequence_num: u64)
        ensures
            final(self).last_sequence_num == sequence_num,
            final(self).grid == old(self).grid,
            final(self).undo_stack == old(self).undo_stack,
            final(self).redo_stack == old(self).redo_stack,
            final(self).unsaved_transactions == old(self).unsaved_transactions,
            final(self).out_of_order_later_transactions == old(self).out_of_order_later_transactions,
            old(self).out_of_order_later_transactions@.len() == 0 ==> final(self).held_wf(),
    {
        self.last_sequence_num = sequence_num;
    }

    /// Used to set the sequence number for multiplayer. This should only be
    /// called when the sequence number comes directly from the file.
    pub fn js_multiplayer_set_sequence_num(&mut self, sequence_num: u32)
        ensures
            final(self).last_sequence_num == sequence_num,
            final(self).grid == old(self).grid,
            final(self).undo_stack == old(self).undo_stack,
            final(self).redo_stack == old(self).redo_stack,
            final(self).unsaved_transactions == old(self).unsaved_transactions,
            final(self).out_of_order_later_transactions == old(self).out_of_order_later_transactions,
    {
        self.set_last_sequence_num(sequence_num as u64);
    }

    /// Deals with a transaction that the server hands out, its id given as
    /// a text. Where the text is no UUID nothing is changed.
    pub fn js_multiplayer_transaction(
        &mut self,
        transaction_id: &str,
        sequence_num: u32,
        operations: Vec<Operation>,
    ) -> (r: Result<TransactionSummary, ReceiveError>)
        requires
            old(self).wf(),
            old(self).history_wf(),
            old(self).held_wf(),
            ops_wf(operations@),
        ensures
            final(self).wf(),
            final(self).history_wf(),
            final(self).held_wf(),
            uuid_value(transaction_id@) is None ==> r == Err::<TransactionSummary, ReceiveError>(
                ReceiveError::InvalidTransactionId,
            ),
            match r {
                Err(ReceiveError::InvalidTransactionId) => uuid_value(transaction_id@) is None
                    && final(self).grid == old(self).grid && final(self).same_history(*old(self)),
                Err(ReceiveError::Transaction(e)) => uuid_value(transaction_id@) is Some
                    && received(
                    *old(self),
                    uuid_value(transaction_id@).unwrap(),
                    sequence_num as u64,
                    operations@,
                    *final(self),
                    Err(e),
                ),
                Ok(summary) => uuid_value(transaction_id@) is Some && received(
                    *old(self),
                    uuid_value(transaction_id@).unwrap(),
                    sequence_num as u64,
                    operations@,
                    *final(self),
                    Ok(summary),
                ),
            },
    {
        let id = match parse_uuid(transaction_id) {
            Some(id) => id,
            None => {
                return Err(ReceiveError::InvalidTransactionId);
            },
        };
        match self.received_transaction(id, sequence_num as u64, operations) {
            Ok(summary) => Ok(summary),
            Err(e) => Err(ReceiveError::Transaction(e)),
        }
    }

    /// Applies a transaction that was made while the server could not be
    /// reached, its id given as a text, unless it waits for confirmation
    /// here already. Returns whether it was applied. Where the text is no
    /// UUID nothing is changed.
    pub fn js_apply_offline_unsaved_transaction(
        &mut self,
        transaction_id: &str,
        unsaved_transaction: UnsavedTransaction,
    ) -> (r: Result<bool, ReceiveError>)
        requires
            old(self).wf(),
            unsaved_transaction.wf(),
        ensures
            final(self).wf(),
            old(self).history_wf() ==> final(self).history_wf(),
            old(self).held_wf() ==> final(self).held_wf(),
            match uuid_value(transaction_id@) {
                None => r == Err::<bool, ReceiveError>(ReceiveError::InvalidTransactionId)
                    && final(self).grid == old(self).grid && final(self).same_history(*old(self)),
                Some(id) => match r {
                    Ok(applied) => applied_offline(
                        *old(self),
                        id,
                        unsaved_transaction.forward.operations@,
                        *final(self),
                        Ok(applied),
                    ),
                    Err(ReceiveError::Transaction(e)) => applied_offline(
                        *old(self),
                        id,
                        unsaved_transaction.forward.operations@,
                        *final(self),
                        Err(e),
                    ),
                    Err(ReceiveError::InvalidTransactionId) => false,
                },
            },
    {
        let id = match parse_uuid(transaction_id) {
            Some(id) => id,
            None => {
                return Err(ReceiveError::InvalidTransactionId);
            },
        };
        match self.apply_offline_unsaved_transaction(id, unsaved_transaction) {
            Ok(applied) => Ok(applied),
            Err(e) => Err(ReceiveError::Transaction(e)),
        }
    }
}

} // verus!
