//! Reconciling what was applied here with the order that the server gives.
//!
//! What a user does is applied at once and waits for the server to confirm
//! it. The server gives every transaction a sequence number, and the grid
//! must come out as if the transactions had been applied in the order of those
//! numbers. So when the next transaction in sequence arrives, what waits here
//! is undone, the transaction is applied, and what still waits is applied
//! again on top of it.

use crate::controller::active_transactions::unsaved_transactions::{
    confirmed, find_unsaved, is_first_unsaved, lemma_first_unsaved_unique, none_unsaved,
    reapply_ops, rollback_ops, unsaved_wf, UnsavedTransaction,
};
use crate::controller::execution::execute_operation::{op_error, TransactionError};
use crate::controller::execution::run::{failed_at, ops_effect, ops_reversed};
use crate::controller::operations::operation::{ops_alike, ops_wf, push_duplicates, Operation};
use crate::controller::active_transactions::pending_transaction::{
    PendingTransaction, TransactionSource,
};
use crate::controller::active_transactions::transaction_name::TransactionName;
use crate::controller::transaction::{
    held_in_order, served_wf, transactions_wf, Transaction, TransactionServer,
};
use crate::controller::GridController;
use vstd::prelude::*;

verus! {

/// What the caller learns when a message of the server has been dealt with.
#[derive(Clone, Copy, Debug, PartialEq, Eq, Structural)]
pub struct TransactionSummary {
    /// The sequence number from which on transactions are missing here and
    /// are to be asked for.
    pub request_transactions: Option<u64>,
    /// The number of transactions of the server that were applied.
    pub applied: u64,
}

/// The operations of the first `k` transactions that wait for their turn.
pub open spec fn held_ops(held: Seq<Transaction>, k: int) -> Seq<Operation>
    decreases k,
{
    if k <= 0 {
        Seq::empty()
    } else {
        held_ops(held, k - 1) + held[k - 1].operations@
    }
}

/// The first `k` transactions that wait for their turn are those that
/// follow the sequence number `n` without a gap, and the one after them does
/// not.
pub open spec fn in_turn(held: Seq<Transaction>, n: u64, k: int) -> bool {
    &&& 0 <= k <= held.len()
    &&& forall|i: int|
        0 <= i < k ==> (#[trigger] held[i]).sequence_num is Some && held[i].sequence_num.unwrap()
            == n + 1 + i
    &&& k < held.len() ==> !(held[k].sequence_num is Some && held[k].sequence_num.unwrap() == n
        + 1 + k)
}

/// Whether a transaction with the sequence number waits for its turn.
pub open spec fn is_held(held: Seq<Transaction>, n: u64) -> bool {
    exists|i: int| 0 <= i < held.len() && (#[trigger] held[i]).sequence_num == Some(n)
}

/// `after` is the list `before` with the transaction of the server added,
/// unless one with its sequence number is in the list already.
pub open spec fn held_with(
    before: Seq<Transaction>,
    id: u128,
    n: u64,
    ops: Seq<Operation>,
    after: Seq<Transaction>,
) -> bool {
    if is_held(before, n) {
        after == before
    } else {
        exists|at: int|
            {
                &&& 0 <= at < after.len()
                &&& after[at].id == id
                &&& after[at].sequence_num == Some(n)
                &&& after[at].operations@ == ops
                &&& after[at].cursor is None
                &&& #[trigger] after.remove(at) == before
            }
    }
}

/// The operations to apply when the transaction that is next in sequence
/// arrives and `k` of those that wait follow it: those that undo what is not
/// confirmed, the latest first; those of the transaction; those of the `k`
/// that follow it; and again those that are still not confirmed, the oldest
/// first.
pub open spec fn reconcile_ops(
    before: GridController,
    id: u128,
    ops: Seq<Operation>,
    k: int,
) -> Seq<Operation> {
    rollback_ops(before.unsaved_transactions@) + ops + held_ops(
        before.out_of_order_later_transactions@,
        k,
    ) + reapply_ops(confirmed(before.unsaved_transactions@, id))
}

/// `applied` asks, operation by operation, for what is to apply when the
/// transaction with sequence number `n` arrives and `k` of those that wait
/// follow it.
pub open spec fn reconciled(
    before: GridController,
    id: u128,
    n: u64,
    ops: Seq<Operation>,
    k: int,
    applied: Seq<Operation>,
) -> bool {
    in_turn(before.out_of_order_later_transactions@, n, k) && ops_alike(
        applied,
        reconcile_ops(before, id, ops, k),
    )
}

/// What receiving a transaction of the server does.
///
/// One that was applied already changes nothing. One that is ahead of its
/// turn is kept, and the missing ones are asked for. The one that is next in
/// sequence is applied between undoing and applying again what waits here
/// for confirmation, together with those kept that follow it without a gap;
/// it no longer waits for confirmation if it was made here. Where an
/// operation cannot be applied, its error is returned, the grid stays as it
/// was when the error came, and nothing else is changed.
pub open spec fn received(
    before: GridController,
    id: u128,
    n: u64,
    ops: Seq<Operation>,
    after: GridController,
    r: Result<TransactionSummary, TransactionError>,
) -> bool {
    &&& after.undo_stack@ == before.undo_stack@
    &&& after.redo_stack@ == before.redo_stack@
    &&& if n <= before.last_sequence_num {
        &&& r == Ok::<TransactionSummary, TransactionError>(
            TransactionSummary { request_transactions: None, applied: 0 },
        )
        &&& after.grid == before.grid
        &&& after.same_history(before)
    } else if n > before.last_sequence_num + 1 {
        &&& r == Ok::<TransactionSummary, TransactionError>(
            TransactionSummary {
                request_transactions: Some((before.last_sequence_num + 1) as u64),
                applied: 0,
            },
        )
        &&& after.grid == before.grid
        &&& after.unsaved_transactions@ == before.unsaved_transactions@
        &&& after.last_sequence_num == before.last_sequence_num
        &&& held_with(
            before.out_of_order_later_transactions@,
            id,
            n,
            ops,
            after.out_of_order_later_transactions@,
        )
    } else {
        match r {
            Ok(summary) => exists|k: int, applied: Seq<Operation>|
                {
                    &&& #[trigger] reconciled(before, id, n, ops, k, applied)
                    &&& ops_effect(before.grid, applied, after.grid)
                    &&& after.last_sequence_num == n + k
                    &&& after.out_of_order_later_transactions@
                        == before.out_of_order_later_transactions@.skip(k)
                    &&& after.unsaved_transactions@ == confirmed(before.unsaved_transactions@, id)
                    &&& summary.request_transactions is None
                    &&& summary.applied == 1 + k
                },
            Err(e) => after.same_history(before) && exists|
                k: int,
                applied: Seq<Operation>,
                j: int,
            |
                {
                    &&& #[trigger] reconciled(before, id, n, ops, k, applied)
                    &&& 0 <= j < applied.len()
                    &&& #[trigger] ops_effect(before.grid, applied.take(j), after.grid)
                    &&& op_error(after.grid, applied[j]) == Some(e)
                },
        }
    }
}

/// What receiving a list of transactions of the server does: each is dealt
/// with in its turn, in the order of the list, and none of them fails.
pub open spec fn received_all(
    before: GridController,
    list: Seq<TransactionServer>,
    after: GridController,
) -> bool
    decreases list.len(),
{
    if list.len() == 0 {
        after.grid == before.grid && after.same_history(before)
    } else {
        exists|mid: GridController, summary: TransactionSummary|
            {
                &&& received_all(before, list.drop_last(), mid)
                &&& #[trigger] received(
                    mid,
                    list.last().id,
                    list.last().sequence_num,
                    list.last().operations@,
                    after,
                    Ok(summary),
                )
            }
    }
}

/// What applying a transaction that was made offline does.
///
/// One that waits for confirmation here already changes nothing, and
/// `false` is returned. Any other is applied as a transaction of the user
/// is: where every operation can be applied, the grid is the grid before
/// with all of them applied, the operations that undo them stand on the undo
/// stack, nothing can be redone, the transaction waits for confirmation
/// under the id given, and `true` is returned. Where one cannot be applied,
/// its error is returned, the grid is the grid before with the operations
/// before that one applied, and nothing else is changed.
pub open spec fn applied_offline(
    before: GridController,
    id: u128,
    ops: Seq<Operation>,
    after: GridController,
    r: Result<bool, TransactionError>,
) -> bool {
    if !none_unsaved(before.unsaved_transactions@, id) {
        &&& r == Ok::<bool, TransactionError>(false)
        &&& after.grid == before.grid
        &&& after.same_history(before)
    } else {
        match r {
            Ok(applied) => {
                &&& applied
                &&& ops_effect(before.grid, ops, after.grid)
                &&& after.undo_stack@.len() == before.undo_stack@.len() + 1
                &&& after.undo_stack@.drop_last() == before.undo_stack@
                &&& ops_reversed(
                    before.grid,
                    ops,
                    after.undo_stack@.last().operations@.reverse(),
                    after.grid,
                )
                &&& after.redo_stack@.len() == 0
                &&& after.unsaved_transactions@.len() == before.unsaved_transactions@.len() + 1
                &&& after.unsaved_transactions@.drop_last() == before.unsaved_transactions@
                &&& after.unsaved_transactions@.last().forward.id == id
                &&& after.unsaved_transactions@.last().forward.operations@ == ops
                &&& after.out_of_order_later_transactions@
                    == before.out_of_order_later_transactions@
                &&& after.last_sequence_num == before.last_sequence_num
            },
            Err(e) => after.same_history(before) && failed_at(before.grid, ops, after.grid, e),
        }
    }
}

/// `after` is the list `before` with operations added that ask for the same
/// as those of `added`, one by one.
pub open spec fn extends(before: Seq<Operation>, after: Seq<Operation>, added: Seq<Operation>) -> bool {
    &&& ops_wf(after)
    &&& after.len() == before.len() + added.len()
    &&& after.take(before.len() as int) == before
    &&& ops_alike(after.skip(before.len() as int), added)
}

/// Adding in two steps adds both lists one after the other.
pub proof fn lemma_extends_twice(
    a: Seq<Operation>,
    b: Seq<Operation>,
    c: Seq<Operation>,
    x: Seq<Operation>,
    y: Seq<Operation>,
)
    requires
        extends(a, b, x),
        extends(b, c, y),
    ensures
        extends(a, c, x + y),
{
    assert(c.take(a.len() as int) =~= b.take(a.len() as int)) by {
        assert forall|i: int| 0 <= i < a.len() implies c.take(a.len() as int)[i] == b.take(
            a.len() as int,
        )[i] by {
            assert(c.take(b.len() as int)[i] == b[i]);
        }
    }
    assert forall|i: int| 0 <= i < x.len() + y.len() implies (#[trigger] c.skip(
        a.len() as int,
    )[i]).alike((x + y)[i]) by {
        if i < x.len() {
            assert(c.take(b.len() as int)[a.len() + i] == b[a.len() + i]);
            assert(b.skip(a.len() as int)[i].alike(x[i]));
        } else {
            assert(c.skip(b.len() as int)[i - x.len()].alike(y[i - x.len()]));
        }
    }
}

/// Adding nothing leaves the list as it is.
pub proof fn lemma_extends_none(a: Seq<Operation>)
    requires
        ops_wf(a),
    ensures
        extends(a, a, Seq::empty()),
{
    assert(a.take(a.len() as int) == a);
}

/// An operation asks for what it asks for.
pub proof fn lemma_alike_refl(op: Operation)
    ensures
        op.alike(op),
{
}

/// The list with the place `skip` left out, as far as the first `n` places
/// go.
pub open spec fn without(list: Seq<UnsavedTransaction>, skip: Option<usize>, n: int) -> Seq<
    UnsavedTransaction,
> {
    match skip {
        Some(c) => if c < n {
            list.take(n).remove(c as int)
        } else {
            list.take(n)
        },
        None => list.take(n),
    }
}

/// Adds operations that undo all the transactions, the latest first.
fn push_rollback(all: &mut Vec<Operation>, unsaved: &Vec<UnsavedTransaction>)
    requires
        ops_wf(old(all)@),
        unsaved_wf(unsaved@),
    ensures
        extends(old(all)@, final(all)@, rollback_ops(unsaved@)),
{
    let ghost start = all@;
    let ghost mut canon: Seq<Operation> = Seq::empty();
    let mut i: usize = unsaved.len();
    proof {
        assert(unsaved@.take(unsaved@.len() as int) == unsaved@);
        lemma_extends_none(start);
    }
    while i > 0
        invariant
            i <= unsaved@.len(),
            unsaved_wf(unsaved@),
            extends(start, all@, canon),
            canon + rollback_ops(unsaved@.take(i as int)) == rollback_ops(unsaved@),
        decreases i,
    {
        i -= 1;
        let ghost before = all@;
        assert(unsaved@[i as int].wf());
        push_duplicates(all, &unsaved[i].reverse.operations);
        proof {
            let part = unsaved@[i as int].reverse.operations@;
            lemma_extends_twice(start, before, all@, canon, part);
            assert(unsaved@.take(i + 1).drop_last() == unsaved@.take(i as int));
            assert(unsaved@.take(i + 1).last() == unsaved@[i as int]);
            assert((canon + part) + rollback_ops(unsaved@.take(i as int)) == canon + (part
                + rollback_ops(unsaved@.take(i as int))));
            canon = canon + part;
        }
    }
    proof {
        assert(unsaved@.take(0) == Seq::<UnsavedTransaction>::empty());
        assert(canon + Seq::<Operation>::empty() == canon);
    }
}

/// Adds the operations of the first `k` transactions that wait.
fn push_held(all: &mut Vec<Operation>, held: &Vec<Transaction>, k: usize)
    requires
        ops_wf(old(all)@),
        transactions_wf(held@),
        k <= held@.len(),
    ensures
        extends(old(all)@, final(all)@, held_ops(held@, k as int)),
{
    let ghost start = all@;
    let mut i: usize = 0;
    proof {
        lemma_extends_none(start);
    }
    while i < k
        invariant
            i <= k <= held@.len(),
            transactions_wf(held@),
            extends(start, all@, held_ops(held@, i as int)),
        decreases k - i,
    {
        let ghost before = all@;
        assert(held@[i as int].wf());
        push_duplicates(all, &held[i].operations);
        proof {
            lemma_extends_twice(
                start,
                before,
                all@,
                held_ops(held@, i as int),
                held@[i as int].operations@,
            );
        }
        i += 1;
    }
}

/// Adds the operations of all the transactions but the one at place `skip`,
/// the oldest first.
fn push_reapply(all: &mut Vec<Operation>, unsaved: &Vec<UnsavedTransaction>, skip: Option<usize>)
    requires
        ops_wf(old(all)@),
        unsaved_wf(unsaved@),
    ensures
        extends(
            old(all)@,
            final(all)@,
            reapply_ops(without(unsaved@, skip, unsaved@.len() as int)),
        ),
{
    let ghost start = all@;
    let mut i: usize = 0;
    proof {
        lemma_extends_none(start);
        assert(unsaved@.take(0) == Seq::<UnsavedTransaction>::empty());
        assert(without(unsaved@, skip, 0) == Seq::<UnsavedTransaction>::empty());
    }
    while i < unsaved.len()
        invariant
            i <= unsaved@.len(),
            unsaved_wf(unsaved@),
            extends(start, all@, reapply_ops(without(unsaved@, skip, i as int))),
        decreases unsaved.len() - i,
    {
        let ghost before = all@;
        let skipped = match skip {
            Some(c) => c == i,
            None => false,
        };
        if skipped {
            proof {
                assert(without(unsaved@, skip, i + 1) =~= without(unsaved@, skip, i as int));
            }
        } else {
            assert(unsaved@[i as int].wf());
            push_duplicates(all, &unsaved[i].forward.operations);
            proof {
                let shorter = without(unsaved@, skip, i as int);
                let longer = without(unsaved@, skip, i + 1);
                assert(longer =~= shorter.push(unsaved@[i as int]));
                assert(longer.drop_last() == shorter);
                lemma_extends_twice(
                    start,
                    before,
                    all@,
                    reapply_ops(shorter),
                    unsaved@[i as int].forward.operations@,
                );
            }
        }
        i += 1;
    }
}

/// Leaving out the first transaction with the id is what its confirmation
/// does to the list.
pub proof fn lemma_without_confirmed(list: Seq<UnsavedTransaction>, id: u128, skip: Option<usize>)
    requires
        match skip {
            Some(i) => is_first_unsaved(list, id, i as int),
            None => none_unsaved(list, id),
        },
    ensures
        without(list, skip, list.len() as int) == confirmed(list, id),
{
    assert(list.take(list.len() as int) == list);
    match skip {
        Some(i) => {
            assert(!none_unsaved(list, id));
            let c = choose|c: int| is_first_unsaved(list, id, c);
            lemma_first_unsaved_unique(list, id, i as int, c);
        },
        None => {},
    }
}

impl GridController {
    /// The number of transactions that wait for their turn and follow the
    /// sequence number `n` without a gap.
    fn count_in_turn(&self, n: u64) -> (k: usize)
        ensures
            in_turn(self.out_of_order_later_transactions@, n, k as int),
    {
        let mut k: usize = 0;
        while k < self.out_of_order_later_transactions.len()
            invariant
                k <= self.out_of_order_later_transactions@.len(),
                forall|i: int|
                    0 <= i < k ==> (#[trigger] self.out_of_order_later_transactions@[i]).sequence_num
                        is Some
                        && self.out_of_order_later_transactions@[i].sequence_num.unwrap() == n + 1
                        + i,
            decreases self.out_of_order_later_transactions.len() - k,
        {
            let next: u128 = n as u128 + 1 + k as u128;
            match self.out_of_order_later_transactions[k].sequence_num {
                Some(s) => {
                    if s as u128 != next {
                        return k;
                    }
                },
                None => {
                    return k;
                },
            }
            k += 1;
        }
        k
    }

    /// Keeps a transaction that is ahead of its turn, in the order of the
    /// sequence numbers, unless one with its number is kept already.
    fn hold(&mut self, id: u128, n: u64, operations: Vec<Operation>)
        requires
            old(self).held_wf(),
            old(self).history_wf(),
            ops_wf(operations@),
            n > old(self).last_sequence_num + 1,
        ensures
            final(self).held_wf(),
            final(self).history_wf(),
            final(self).grid == old(self).grid,
            final(self).undo_stack == old(self).undo_stack,
            final(self).redo_stack == old(self).redo_stack,
            final(self).unsaved_transactions == old(self).unsaved_transactions,
            final(self).last_sequence_num == old(self).last_sequence_num,
            held_with(
                old(self).out_of_order_later_transactions@,
                id,
                n,
                operations@,
                final(self).out_of_order_later_transactions@,
            ),
    {
        let ghost held = self.out_of_order_later_transactions@;
        let mut at: usize = 0;
        let mut placed = false;
        while at < self.out_of_order_later_transactions.len() && !placed
            invariant
                at <= held.len(),
                *self == *old(self),
                old(self).history_wf(),
                held == self.out_of_order_later_transactions@,
                held_in_order(held, self.last_sequence_num),
                forall|i: int| 0 <= i < at ==> (#[trigger] held[i]).sequence_num.unwrap() < n,
                placed ==> at < held.len() && held[at as int].sequence_num.unwrap() > n,
            decreases self.out_of_order_later_transactions.len() - at, if placed { 0int } else { 1int },
        {
            match self.out_of_order_later_transactions[at].sequence_num {
                Some(s) => {
                    if s == n {
                        assert(is_held(held, n));
                        return ;
                    }
                    if s > n {
                        placed = true;
                    } else {
                        at += 1;
                    }
                },
                None => {
                    at += 1;
                },
            }
        }
        proof {
            assert(!is_held(held, n)) by {
                if is_held(held, n) {
                    let i = choose|i: int|
                        0 <= i < held.len() && (#[trigger] held[i]).sequence_num == Some(n);
                    if i < at {
                        assert(held[i].sequence_num.unwrap() < n);
                    } else {
                        assert(placed);
                        if i > at {
                            assert(held[at as int].sequence_num.unwrap()
                                < held[i].sequence_num.unwrap());
                        }
                    }
                }
            }
        }
        self.out_of_order_later_transactions.insert(
            at,
            Transaction { id, sequence_num: Some(n), operations, cursor: None },
        );
        proof {
            let after = self.out_of_order_later_transactions@;
            assert(after.remove(at as int) =~= held);
            assert forall|i: int, j: int| 0 <= i < j < after.len() implies (
            #[trigger] after[i]).sequence_num.unwrap() < (#[trigger] after[j]).sequence_num.unwrap() by {
                if i < at && j > at {
                    assert(after[j] == held[j - 1]);
                    assert(after[i] == held[i]);
                } else if i > at {
                    assert(after[i] == held[i - 1]);
                    assert(after[j] == held[j - 1]);
                } else if i == at {
                    assert(after[j] == held[j - 1]);
                    if j - 1 > at {
                        assert(held[at as int].sequence_num.unwrap() < held[j
                            - 1].sequence_num.unwrap());
                    }
                } else if j == at {
                    assert(after[i] == held[i]);
                } else {
                    assert(after[i] == held[i]);
                    assert(after[j] == held[j]);
                }
            }
            assert forall|i: int| 0 <= i < after.len() implies (#[trigger] after[i]).wf() by {
                if i < at {
                    assert(after[i] == held[i]);
                } else if i > at {
                    assert(after[i] == held[i - 1]);
                }
            }
            assert forall|i: int| 0 <= i < after.len() implies (#[trigger] after[i]).sequence_num
                is Some && after[i].sequence_num.unwrap() > self.last_sequence_num + 1 by {
                if i < at {
                    assert(after[i] == held[i]);
                } else if i > at {
                    assert(after[i] == held[i - 1]);
                }
            }
        }
    }

    /// Deals with a transaction that the server hands out with its sequence
    /// number.
    ///
    /// One that was applied already is passed over. One that is ahead of its
    /// turn is kept until the ones before it have come, and these are asked
    /// for. The one that is next in sequence is applied: first what waits
    /// here for confirmation is undone, the latest transaction first; then
    /// the transaction is applied, and after it those kept that follow it
    /// without a gap; then what still waits for confirmation is applied
    /// again, the oldest first. A transaction that was made here is
    /// confirmed by this, and waits no longer.
    pub fn received_transaction(
        &mut self,
        transaction_id: u128,
        sequence_num: u64,
        operations: Vec<Operation>,
    ) -> (r: Result<TransactionSummary, TransactionError>)
        requires
            old(self).wf(),
            old(self).history_wf(),
            old(self).held_wf(),
            ops_wf(operations@),
        ensures
            final(self).wf(),
            final(self).history_wf(),
            final(self).held_wf(),
            received(*old(self), transaction_id, sequence_num, operations@, *final(self), r),
    {
        if sequence_num <= self.last_sequence_num {
            return Ok(TransactionSummary { request_transactions: None, applied: 0 });
        }
        if sequence_num - 1 > self.last_sequence_num {
            self.hold(transaction_id, sequence_num, operations);
            return Ok(
                TransactionSummary {
                    request_transactions: Some(self.last_sequence_num + 1),
                    applied: 0,
                },
            );
        }
        let ghost before = *self;
        let ghost ops = operations@;
        let k = self.count_in_turn(sequence_num);
        let skip = find_unsaved(&self.unsaved_transactions, transaction_id);
        let mut all: Vec<Operation> = Vec::new();
        push_rollback(&mut all, &self.unsaved_transactions);
        let ghost rolled = all@;
        let mut operations = operations;
        all.append(&mut operations);
        let ghost given = all@;
        push_held(&mut all, &self.out_of_order_later_transactions, k);
        let ghost followed = all@;
        push_reapply(&mut all, &self.unsaved_transactions, skip);
        proof {
            let unsaved = before.unsaved_transactions@;
            let held = before.out_of_order_later_transactions@;
            assert(extends(rolled, given, ops)) by {
                assert(given == rolled + ops);
                assert(given.take(rolled.len() as int) =~= rolled);
                assert(given.skip(rolled.len() as int) =~= ops);
                assert forall|x: int| 0 <= x < ops.len() implies (#[trigger] ops[x]).alike(
                    ops[x],
                ) by {
                    lemma_alike_refl(ops[x]);
                }
            }
            let empty = Seq::<Operation>::empty();
            lemma_extends_twice(empty, rolled, given, rollback_ops(unsaved), ops);
            lemma_extends_twice(
                empty,
                given,
                followed,
                rollback_ops(unsaved) + ops,
                held_ops(held, k as int),
            );
            lemma_extends_twice(
                empty,
                followed,
                all@,
                rollback_ops(unsaved) + ops + held_ops(held, k as int),
                reapply_ops(without(unsaved, skip, unsaved.len() as int)),
            );
            lemma_without_confirmed(unsaved, transaction_id, skip);
            assert(all@.skip(0) == all@);
            assert(reconciled(before, transaction_id, sequence_num, ops, k as int, all@));
        }
        let ghost applied = all@;
        match self.server_apply_transaction(all) {
            Err(e) => Err(e),
            Ok(_) => {
                let last = if k > 0 {
                    match self.out_of_order_later_transactions[k - 1].sequence_num {
                        Some(s) => s,
                        None => sequence_num,
                    }
                } else {
                    sequence_num
                };
                match skip {
                    Some(i) => {
                        self.unsaved_transactions.remove(i);
                    },
                    None => {},
                }
                let rest = self.out_of_order_later_transactions.split_off(k);
                self.out_of_order_later_transactions = rest;
                self.last_sequence_num = last;
                proof {
                    let unsaved = before.unsaved_transactions@;
                    let held = before.out_of_order_later_transactions@;
                    assert(self.out_of_order_later_transactions@ =~= held.skip(k as int));
                    assert(self.unsaved_transactions@ == confirmed(unsaved, transaction_id)) by {
                        lemma_without_confirmed(unsaved, transaction_id, skip);
                        assert(unsaved.take(unsaved.len() as int) == unsaved);
                    }
                    assert forall|i: int|
                        0 <= i < self.unsaved_transactions@.len() implies (
                    #[trigger] self.unsaved_transactions@[i]).wf() by {
                        match skip {
                            Some(c) => {
                                if i < c {
                                    assert(self.unsaved_transactions@[i] == unsaved[i]);
                                } else {
                                    assert(self.unsaved_transactions@[i] == unsaved[i + 1]);
                                }
                            },
                            None => {},
                        }
                    }
                    assert forall|i: int|
                        0 <= i < held.skip(k as int).len() implies (#[trigger] held.skip(
                        k as int,
                    )[i]).sequence_num.unwrap() > last + 1 by {
                        assert(held[k + i].sequence_num is Some);
                        if k > 0 {
                            assert(held[k - 1].sequence_num.unwrap() < held[k
                                + i].sequence_num.unwrap());
                        }
                        if i > 0 {
                            assert(held[k as int].sequence_num.unwrap() < held[k
                                + i].sequence_num.unwrap());
                        }
                    }
                    assert forall|i: int, j: int|
                        0 <= i < j < held.skip(k as int).len() implies (#[trigger] held.skip(
                        k as int,
                    )[i]).sequence_num.unwrap() < (#[trigger] held.skip(
                        k as int,
                    )[j]).sequence_num.unwrap() by {
                        assert(held[k + i].sequence_num.unwrap() < held[k
                            + j].sequence_num.unwrap());
                    }
                    assert forall|i: int| 0 <= i < held.skip(k as int).len() implies (
                    #[trigger] held.skip(k as int)[i]).wf() by {
                        assert(held[k + i].wf());
                    }
                }
                Ok(TransactionSummary { request_transactions: None, applied: 1 + k as u64 })
            },
        }
    }

    /// Deals with transactions that the server hands out, one after the
    /// other in the order of the list, and says what is still missing: where
    /// a transaction waits for its turn after them, those that follow the
    /// last one applied are asked for. The first transaction that cannot be
    /// applied ends it with its error; those after it are not looked at.
    pub fn received_transactions(&mut self, transactions: Vec<TransactionServer>) -> (r: Result<
        TransactionSummary,
        TransactionError,
    >)
        requires
            old(self).wf(),
            old(self).history_wf(),
            old(self).held_wf(),
            served_wf(transactions@),
        ensures
            final(self).wf(),
            final(self).history_wf(),
            final(self).held_wf(),
            match r {
                Ok(summary) => {
                    &&& received_all(*old(self), transactions@, *final(self))
                    &&& summary.applied == final(self).last_sequence_num - old(self).last_sequence_num
                    &&& summary.request_transactions == if final(self).out_of_order_later_transactions@.len() > 0 {
                        Some((final(self).last_sequence_num + 1) as u64)
                    } else {
                        None
                    }
                },
                Err(e) => exists|j: int, mid: GridController|
                    {
                        &&& 0 <= j < transactions@.len()
                        &&& received_all(*old(self), transactions@.take(j), mid)
                        &&& #[trigger] received(
                            mid,
                            transactions@[j].id,
                            transactions@[j].sequence_num,
                            transactions@[j].operations@,
                            *final(self),
                            Err(e),
                        )
                    },
            },
    {
        let ghost all = transactions@;
        let ghost start = *self;
        let start_num = self.last_sequence_num;
        proof {
            assert(all.take(0) == Seq::<TransactionServer>::empty());
        }
        for t in it: transactions
            invariant
                it.seq() == all,
                start == *old(self),
                served_wf(all),
                self.wf(),
                self.history_wf(),
                self.held_wf(),
                received_all(start, all.take(it.index()), *self),
                self.last_sequence_num >= start.last_sequence_num,
        {
            let ghost mid = *self;
            let ghost j = it.index();
            assert(all[j].wf());
            let TransactionServer { id, file_id: _, sequence_num, operations } = t;
            match self.received_transaction(id, sequence_num, operations) {
                Ok(summary) => {
                    proof {
                        assert(all.take(j + 1).drop_last() == all.take(j));
                        assert(all.take(j + 1).last() == all[j]);
                        assert(received(
                            mid,
                            all[j].id,
                            all[j].sequence_num,
                            all[j].operations@,
                            *self,
                            Ok(summary),
                        ));
                    }
                },
                Err(e) => {
                    return Err(e);
                },
            }
        }
        proof {
            assert(all.take(all.len() as int) == all);
        }
        let request_transactions = if self.out_of_order_later_transactions.len() > 0 {
            proof {
                assert(self.out_of_order_later_transactions@[0].sequence_num.unwrap()
                    > self.last_sequence_num + 1);
            }
            Some(self.last_sequence_num + 1)
        } else {
            None
        };
        Ok(TransactionSummary { request_transactions, applied: self.last_sequence_num - start_num })
    }

    /// Applies a transaction that was made while the server could not be
    /// reached, unless it waits for confirmation here already: its
    /// operations are applied as those of a user are, it can be undone, and
    /// it waits for confirmation under the id given. Returns whether it was
    /// applied.
    pub fn apply_offline_unsaved_transaction(
        &mut self,
        transaction_id: u128,
        unsaved_transaction: UnsavedTransaction,
    ) -> (r: Result<bool, TransactionError>)
        requires
            old(self).wf(),
            unsaved_transaction.wf(),
        ensures
            final(self).wf(),
            old(self).history_wf() ==> final(self).history_wf(),
            old(self).held_wf() ==> final(self).held_wf(),
            final(self).last_sequence_num == old(self).last_sequence_num,
            applied_offline(
                *old(self),
                transaction_id,
                unsaved_transaction.forward.operations@,
                *final(self),
                r,
            ),
    {
        match find_unsaved(&self.unsaved_transactions, transaction_id) {
            Some(i) => {
                assert(self.unsaved_transactions@[i as int].forward.id == transaction_id);
                return Ok(false);
            },
            None => {},
        }
        let UnsavedTransaction { forward, reverse: _, sent_to_server: _ } = unsaved_transaction;
        let Transaction { id: _, sequence_num: _, operations, cursor } = forward;
        let ghost ops = operations@;
        let mut transaction = PendingTransaction::new(
            transaction_id,
            TransactionName::Unknown,
            TransactionSource::User,
            cursor,
            operations,
        );
        match self.run_transaction(&mut transaction) {
            Ok(_) => {
                let ghost reverses = transaction.reverse_operations@;
                proof {
                    assert(transaction.forward_operations@ =~= ops);
                    assert(reverses.skip(0) == reverses);
                    assert(reverses.reverse().reverse() =~= reverses);
                }
                self.finalize_transaction(transaction);
                Ok(true)
            },
            Err(e) => Err(e),
        }
    }

    /// Deals with the sequence number that the server says is its latest.
    /// Where it is not the number of the last transaction applied here,
    /// transactions are missing, and those that follow the last one applied
    /// are asked for.
    pub fn receive_sequence_num(&self, sequence_num: u64) -> (summary: TransactionSummary)
        ensures
            summary.applied == 0,
            sequence_num == self.last_sequence_num ==> summary.request_transactions is None,
            sequence_num != self.last_sequence_num && self.last_sequence_num < u64::MAX
                ==> summary.request_transactions == Some((self.last_sequence_num + 1) as u64),
            self.last_sequence_num == u64::MAX ==> summary.request_transactions is None,
    {
        if sequence_num != self.last_sequence_num && self.last_sequence_num < u64::MAX {
            TransactionSummary {
                request_transactions: Some(self.last_sequence_num + 1),
                applied: 0,
            }
        } else {
            TransactionSummary { request_transactions: None, applied: 0 }
        }
    }
}

} // verus!
