//! Transactions that were applied.

use crate::controller::operations::operation::{is_ops_wf, Operation};
use vstd::prelude::*;

verus! {

/// A committed record: an id, the operations in the order in which they
/// were applied, and, once the server has confirmed it, the sequence number
/// that the server gave it.
#[derive(Debug, PartialEq, Eq)]
pub struct Transaction {
    pub id: u128,
    pub sequence_num: Option<u64>,
    pub operations: Vec<Operation>,
    pub cursor: Option<String>,
}

/// A transaction as the server hands it out: with its sequence number.
#[derive(Debug, PartialEq, Eq)]
pub struct TransactionServer {
    pub id: u128,
    pub file_id: u128,
    pub sequence_num: u64,
    pub operations: Vec<Operation>,
}

impl Transaction {
    /// Every operation is well formed.
    pub open spec fn wf(self) -> bool {
        forall|i: int| 0 <= i < self.operations@.len() ==> (#[trigger] self.operations@[i]).wf()
    }
}

impl TransactionServer {
    /// Every operation is well formed.
    pub open spec fn wf(self) -> bool {
        forall|i: int| 0 <= i < self.operations@.len() ==> (#[trigger] self.operations@[i]).wf()
    }
}

/// Every operation of every transaction is well formed.
pub open spec fn transactions_wf(list: Seq<Transaction>) -> bool {
    forall|i: int| 0 <= i < list.len() ==> (#[trigger] list[i]).wf()
}

/// Whether every operation of every transaction is well formed.
pub fn is_transactions_wf(list: &Vec<Transaction>) -> (b: bool)
    ensures
        b == transactions_wf(list@),
{
    let mut i: usize = 0;
    while i < list.len()
        invariant
            i <= list@.len(),
            forall|k: int| 0 <= k < i ==> (#[trigger] list@[k]).wf(),
        decreases list.len() - i,
    {
        if !is_ops_wf(&list[i].operations) {
            return false;
        }
        i += 1;
    }
    true
}

/// Whether every operation of every transaction that the server hands out
/// is well formed.
pub fn is_served_wf(list: &Vec<TransactionServer>) -> (b: bool)
    ensures
        b == served_wf(list@),
{
    let mut i: usize = 0;
    while i < list.len()
        invariant
            i <= list@.len(),
            forall|k: int| 0 <= k < i ==> (#[trigger] list@[k]).wf(),
        decreases list.len() - i,
    {
        if !is_ops_wf(&list[i].operations) {
            return false;
        }
        i += 1;
    }
    true
}

/// Whether the transactions that wait for their turn are kept by their
/// sequence numbers, each number once, all of them after the number that
/// follows `last`.
pub fn is_held_in_order(held: &Vec<Transaction>, last: u64) -> (b: bool)
    ensures
        b == held_in_order(held@, last),
{
    let mut i: usize = 0;
    while i < held.len()
        invariant
            i <= held@.len(),
            forall|k: int|
                0 <= k < i ==> (#[trigger] held@[k]).sequence_num is Some
                    && held@[k].sequence_num.unwrap() > last + 1,
            forall|k: int|
                0 <= k && k + 1 < i ==> (#[trigger] held@[k]).sequence_num.unwrap() < held@[k
                    + 1].sequence_num.unwrap(),
        decreases held.len() - i,
    {
        match held[i].sequence_num {
            Some(n) => {
                if n as u128 <= last as u128 + 1 {
                    return false;
                }
                if i > 0 {
                    match held[i - 1].sequence_num {
                        Some(before) => {
                            if before >= n {
                                proof {
                                    assert(!(held@[i - 1].sequence_num.unwrap() < held@[i as int].sequence_num.unwrap()));
                                }
                                return false;
                            }
                        },
                        None => {},
                    }
                }
            },
            None => {
                return false;
            },
        }
        i += 1;
    }
    proof {
        lemma_numbers_grow(held@);
    }
    true
}

/// Sequence numbers that grow from each transaction to the next grow from
/// each to every later one.
pub proof fn lemma_numbers_grow(held: Seq<Transaction>)
    requires
        forall|k: int|
            0 <= k && k + 1 < held.len() ==> (#[trigger] held[k]).sequence_num.unwrap() < held[k
                + 1].sequence_num.unwrap(),
    ensures
        forall|i: int, j: int|
            0 <= i < j < held.len() ==> (#[trigger] held[i]).sequence_num.unwrap() < (
            #[trigger] held[j]).sequence_num.unwrap(),
    decreases held.len(),
{
    if held.len() > 1 {
        let head = held.drop_last();
        assert forall|k: int| 0 <= k && k + 1 < head.len() implies (
        #[trigger] head[k]).sequence_num.unwrap() < head[k + 1].sequence_num.unwrap() by {
            assert(head[k] == held[k] && head[k + 1] == held[k + 1]);
        }
        lemma_numbers_grow(head);
        assert forall|i: int, j: int| 0 <= i < j < held.len() implies (
        #[trigger] held[i]).sequence_num.unwrap() < (#[trigger] held[j]).sequence_num.unwrap() by {
            let last = held.len() - 1;
            if j < last {
                assert(head[i] == held[i] && head[j] == held[j]);
            } else if i < last - 1 {
                assert(head[i] == held[i] && head[last - 1] == held[last - 1]);
                assert(held[last - 1].sequence_num.unwrap() < held[last - 1 + 1].sequence_num.unwrap());
            } else {
                assert(held[i].sequence_num.unwrap() < held[i + 1].sequence_num.unwrap());
            }
        }
    }
}

/// Every operation of every transaction that the server hands out is well
/// formed.
pub open spec fn served_wf(list: Seq<TransactionServer>) -> bool {
    forall|i: int| 0 <= i < list.len() ==> (#[trigger] list[i]).wf()
}

/// The transactions that wait for their turn are kept by their sequence
/// numbers, each number once, and all of them come after the number that
/// follows `last`.
pub open spec fn held_in_order(held: Seq<Transaction>, last: u64) -> bool {
    &&& forall|i: int|
        0 <= i < held.len() ==> (#[trigger] held[i]).sequence_num is Some
            && held[i].sequence_num.unwrap() > last + 1
    &&& forall|i: int, j: int|
        0 <= i < j < held.len() ==> (#[trigger] held[i]).sequence_num.unwrap() < (
        #[trigger] held[j]).sequence_num.unwrap()
}

} // verus!
