//! A transaction while it is being applied.

use crate::controller::active_transactions::transaction_name::TransactionName;
use crate::controller::operations::operation::Operation;
use crate::pos::SheetPos;
use crate::rect::SheetRect;
use std::collections::VecDeque;
use vstd::prelude::*;

verus! {

/// Where a transaction comes from.
#[derive(Clone, Copy, Debug, PartialEq, Eq, Hash, Structural)]
pub enum TransactionSource {
    User,
    Undo,
    Redo,
    Multiplayer,
    Server,
}

/// The unit of work in progress: the operations still to apply, and what
/// applying the others has done.
#[derive(Debug, PartialEq, Eq)]
pub struct PendingTransaction {
    pub id: u128,
    pub name: TransactionName,
    pub source: TransactionSource,
    /// Where the cursor was, for the user's benefit when the transaction is
    /// undone.
    pub cursor: Option<String>,
    /// The operations that are still to be applied, next one first.
    pub operations: VecDeque<Operation>,
    /// The operations applied so far, first one first.
    pub forward_operations: Vec<Operation>,
    /// For each operation applied so far, the operation that undoes it.
    pub reverse_operations: Vec<Operation>,
    /// The regions that the operations applied so far have touched.
    pub dirty: Vec<SheetRect>,
    /// Whether an operation applied so far has changed the list of sheets or
    /// what is known of a sheet as a whole.
    pub sheets_modified: bool,
    /// The code cells that were asked to run.
    pub code_requests: Vec<SheetPos>,
}

impl PendingTransaction {
    /// Every operation still to be applied is well formed.
    pub open spec fn wf(self) -> bool {
        forall|i: int| 0 <= i < self.operations@.len() ==> (#[trigger] self.operations@[i]).wf()
    }

    /// A transaction that has the given operations to apply and has applied
    /// none.
    pub fn new(
        id: u128,
        name: TransactionName,
        source: TransactionSource,
        cursor: Option<String>,
        operations: Vec<Operation>,
    ) -> (r: PendingTransaction)
        ensures
            r.id == id,
            r.name == name,
            r.source == source,
            r.cursor == cursor,
            r.operations@ == operations@,
            r.forward_operations@.len() == 0,
            r.reverse_operations@.len() == 0,
            r.dirty@.len() == 0,
            !r.sheets_modified,
            r.code_requests@.len() == 0,
    {
        let mut queue: VecDeque<Operation> = VecDeque::new();
        let ghost all = operations@;
        for op in it: operations
            invariant
                it.seq() == all,
                queue@ == all.take(it.index()),
        {
            queue.push_back(op);
            assert(all.take(it.index() + 1) == all.take(it.index()).push(all[it.index()]));
        }
        assert(all.take(all.len() as int) == all);
        PendingTransaction {
            id,
            name,
            source,
            cursor,
            operations: queue,
            forward_operations: Vec::new(),
            reverse_operations: Vec::new(),
            dirty: Vec::new(),
            sheets_modified: false,
            code_requests: Vec::new(),
        }
    }

    /// What both transactions have recorded is the same.
    pub open spec fn same_records(self, other: PendingTransaction) -> bool {
        &&& self.id == other.id
        &&& self.name == other.name
        &&& self.source == other.source
        &&& self.cursor == other.cursor
        &&& self.forward_operations == other.forward_operations
        &&& self.reverse_operations == other.reverse_operations
        &&& self.dirty == other.dirty
        &&& self.sheets_modified == other.sheets_modified
        &&& self.code_requests == other.code_requests
    }

    /// Whether every operation has been applied.
    pub fn is_complete(&self) -> (b: bool)
        ensures
            b == (self.operations@.len() == 0),
    {
        self.operations.len() == 0
    }
}

} // verus!
