//! Transactions made here that the server has not confirmed yet.

use crate::controller::operations::operation::{ops_wf, Operation};
use crate::controller::transaction::Transaction;
use vstd::prelude::*;

verus! {

/// A transaction that was applied here and waits for the server to confirm
/// it: the operations that it applied, and those that undo it.
#[derive(Debug, PartialEq, Eq)]
pub struct UnsavedTransaction {
    pub forward: Transaction,
    pub reverse: Transaction,
    pub sent_to_server: bool,
}

impl UnsavedTransaction {
    /// Every operation is well formed.
    pub open spec fn wf(self) -> bool {
        ops_wf(self.forward.operations@) && ops_wf(self.reverse.operations@)
    }
}

/// Every operation of every transaction is well formed.
pub open spec fn unsaved_wf(list: Seq<UnsavedTransaction>) -> bool {
    forall|i: int| 0 <= i < list.len() ==> (#[trigger] list[i]).wf()
}

/// The operations that undo all the transactions, those of the latest
/// transaction first.
pub open spec fn rollback_ops(list: Seq<UnsavedTransaction>) -> Seq<Operation>
    decreases list.len(),
{
    if list.len() == 0 {
        Seq::empty()
    } else {
        list.last().reverse.operations@ + rollback_ops(list.drop_last())
    }
}

/// The operations of all the transactions, those of the oldest transaction
/// first.
pub open spec fn reapply_ops(list: Seq<UnsavedTransaction>) -> Seq<Operation>
    decreases list.len(),
{
    if list.len() == 0 {
        Seq::empty()
    } else {
        reapply_ops(list.drop_last()) + list.last().forward.operations@
    }
}

/// `i` is the place of the first transaction with the id.
pub open spec fn is_first_unsaved(list: Seq<UnsavedTransaction>, id: u128, i: int) -> bool {
    &&& 0 <= i < list.len()
    &&& list[i].forward.id == id
    &&& forall|j: int| 0 <= j < i ==> (#[trigger] list[j]).forward.id != id
}

/// No transaction has the id.
pub open spec fn none_unsaved(list: Seq<UnsavedTransaction>, id: u128) -> bool {
    forall|j: int| 0 <= j < list.len() ==> (#[trigger] list[j]).forward.id != id
}

/// The list once the server has confirmed the transaction with the id: the
/// list without the first transaction that has it.
pub open spec fn confirmed(list: Seq<UnsavedTransaction>, id: u128) -> Seq<UnsavedTransaction> {
    if none_unsaved(list, id) {
        list
    } else {
        list.remove(choose|i: int| is_first_unsaved(list, id, i))
    }
}

/// The place of the first transaction with the id.
pub fn find_unsaved(list: &Vec<UnsavedTransaction>, id: u128) -> (r: Option<usize>)
    ensures
        match r {
            Some(i) => is_first_unsaved(list@, id, i as int),
            None => none_unsaved(list@, id),
        },
{
    let mut i: usize = 0;
    while i < list.len()
        invariant
            i <= list@.len(),
            forall|j: int| 0 <= j < i ==> (#[trigger] list@[j]).forward.id != id,
        decreases list.len() - i,
    {
        if list[i].forward.id == id {
            return Some(i);
        }
        i += 1;
    }
    None
}

/// There is one first place at most.
pub proof fn lemma_first_unsaved_unique(list: Seq<UnsavedTransaction>, id: u128, i: int, j: int)
    requires
        is_first_unsaved(list, id, i),
        is_first_unsaved(list, id, j),
    ensures
        i == j,
{
    if i < j {
        assert(list[i].forward.id != id);
    }
    if j < i {
        assert(list[j].forward.id != id);
    }
}

} // verus!
