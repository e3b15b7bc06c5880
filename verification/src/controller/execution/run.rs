//! Running whole transactions, and undoing and redoing them.

use crate::controller::active_transactions::pending_transaction::{
    PendingTransaction, TransactionSource,
};
use crate::controller::active_transactions::transaction_name::TransactionName;
use crate::controller::execution::execute_operation::{
    executed, op_effect, op_error, op_reverses, TransactionError,
};
use crate::controller::active_transactions::unsaved_transactions::UnsavedTransaction;
use crate::controller::operations::operation::{ops_alike, ops_wf, push_duplicates, Operation};
use crate::controller::transaction::Transaction;
use crate::controller::GridController;
use crate::grid::code::clone_opt_string;
use crate::grid::ids::random_uuid;
use crate::grid::Grid;
use vstd::prelude::*;

verus! {

/// `after` is the grid `before` with the operations applied one after the
/// other, each of them without error.
pub open spec fn ops_effect(before: Grid, ops: Seq<Operation>, after: Grid) -> bool
    decreases ops.len(),
{
    if ops.len() == 0 {
        after.sheets@ == before.sheets@
    } else {
        exists|mid: Grid|
            {
                &&& op_error(mid, ops.last()) is None
                &&& #[trigger] op_effect(mid, ops.last(), after)
                &&& ops_effect(before, ops.drop_last(), mid)
            }
    }
}

/// `after` is the grid `before` with the operations applied one after the
/// other, each of them without error, and `reverses` holds for each of them
/// the operation that undoes it on the grid that it was applied to.
pub open spec fn ops_reversed(
    before: Grid,
    ops: Seq<Operation>,
    reverses: Seq<Operation>,
    after: Grid,
) -> bool
    decreases ops.len(),
{
    &&& reverses.len() == ops.len()
    &&& if ops.len() == 0 {
        after.sheets@ == before.sheets@
    } else {
        exists|mid: Grid|
            {
                &&& op_error(mid, ops.last()) is None
                &&& #[trigger] op_effect(mid, ops.last(), after)
                &&& op_reverses(mid, ops.last(), after, reverses.last())
                &&& ops_reversed(before, ops.drop_last(), reverses.drop_last(), mid)
            }
    }
}

/// Applying the operations one after the other ends at the first one that
/// cannot be applied, with its error `e`: `after` is the grid `before` with
/// the operations before that one applied.
pub open spec fn failed_at(before: Grid, ops: Seq<Operation>, after: Grid, e: TransactionError) -> bool {
    exists|k: int|
        0 <= k < ops.len() && #[trigger] ops_effect(before, ops.take(k), after) && op_error(
            after,
            ops[k],
        ) == Some(e)
}

/// What running a transaction does. Where every operation can be applied,
/// the queue is empty, the grid is the grid before with all of them applied,
/// and they stand in the forward log, each with the operation that undoes
/// it in the reverse log. Where one cannot, the operations before it are
/// applied and recorded, that operation is gone from the queue with the
/// others still in it, and its error is returned.
pub open spec fn ran(
    grid: Grid,
    transaction: PendingTransaction,
    new_grid: Grid,
    new_transaction: PendingTransaction,
    r: Result<(), TransactionError>,
) -> bool {
    let ops = transaction.operations@;
    &&& new_transaction.id == transaction.id
    &&& new_transaction.name == transaction.name
    &&& new_transaction.source == transaction.source
    &&& new_transaction.cursor == transaction.cursor
    &&& match r {
        Ok(_) => {
            &&& new_transaction.operations@.len() == 0
            &&& ops_effect(grid, ops, new_grid)
            &&& new_transaction.forward_operations@ == transaction.forward_operations@ + ops
            &&& new_transaction.reverse_operations@.len() == transaction.reverse_operations@.len()
                + ops.len()
            &&& new_transaction.reverse_operations@.take(
                transaction.reverse_operations@.len() as int,
            ) == transaction.reverse_operations@
            &&& ops_reversed(
                grid,
                ops,
                new_transaction.reverse_operations@.skip(
                    transaction.reverse_operations@.len() as int,
                ),
                new_grid,
            )
        },
        Err(e) => exists|k: int|
            {
                &&& 0 <= k < ops.len()
                &&& #[trigger] ops_effect(grid, ops.take(k), new_grid)
                &&& op_error(new_grid, ops[k]) == Some(e)
                &&& new_transaction.operations@ == ops.skip(k + 1)
                &&& new_transaction.forward_operations@ == transaction.forward_operations@
                    + ops.take(k)
                &&& new_transaction.reverse_operations@.len()
                    == transaction.reverse_operations@.len() + k
                &&& new_transaction.reverse_operations@.take(
                    transaction.reverse_operations@.len() as int,
                ) == transaction.reverse_operations@
                &&& ops_reversed(
                    grid,
                    ops.take(k),
                    new_transaction.reverse_operations@.skip(
                        transaction.reverse_operations@.len() as int,
                    ),
                    new_grid,
                )
            },
    }
}

/// The operations in reverse order.
pub fn reversed(ops: Vec<Operation>) -> (r: Vec<Operation>)
    ensures
        r@ == ops@.reverse(),
{
    let mut ops = ops;
    let ghost all = ops@;
    let mut out: Vec<Operation> = Vec::new();
    while ops.len() > 0
        invariant
            ops@.len() <= all.len(),
            ops@ == all.take(ops@.len() as int),
            out@.len() + ops@.len() == all.len(),
            forall|i: int| 0 <= i < out@.len() ==> #[trigger] out@[i] == all[all.len() - 1 - i],
        decreases ops.len(),
    {
        let ghost n = ops@.len();
        match ops.pop() {
            Some(op) => {
                assert(op == all[n - 1]);
                out.push(op);
            },
            None => {},
        }
        assert(ops@ =~= all.take(ops@.len() as int));
    }
    assert(out@ =~= all.reverse());
    out
}

impl GridController {
    /// Applies the operations of the transaction one by one, in the order of
    /// the queue, until the queue is empty or an operation cannot be applied.
    pub fn run_transaction(&mut self, transaction: &mut PendingTransaction) -> (r: Result<
        (),
        TransactionError,
    >)
        requires
            old(self).wf(),
            old(transaction).wf(),
        ensures
            final(self).wf(),
            final(transaction).wf(),
            final(self).same_history(*old(self)),
            ran(old(self).grid, *old(transaction), final(self).grid, *final(transaction), r),
            forall|i: int|
                0 <= i < final(transaction).reverse_operations@.len() ==> (
                #[trigger] final(transaction).reverse_operations@[i]).wf() || i < old(transaction).reverse_operations@.len(),
    {
        let ghost ops = transaction.operations@;
        let ghost start = self.grid;
        let ghost first = *transaction;
        let ghost mut done: int = 0;
        assert(ops.take(0) == Seq::<Operation>::empty());
        assert(first.forward_operations@ + ops.take(0) == first.forward_operations@);
        assert(ops.skip(0) == ops);
        assert(first.reverse_operations@.take(first.reverse_operations@.len() as int)
            == first.reverse_operations@);
        assert(first.reverse_operations@.skip(first.reverse_operations@.len() as int).len() == 0);
        while transaction.operations.len() > 0
            invariant
                self.wf(),
                transaction.wf(),
                self.same_history(*old(self)),
                first == *old(transaction),
                start == old(self).grid,
                ops == first.operations@,
                0 <= done <= ops.len(),
                transaction.operations@ == ops.skip(done),
                transaction.id == first.id,
                transaction.name == first.name,
                transaction.source == first.source,
                transaction.cursor == first.cursor,
                ops_effect(start, ops.take(done), self.grid),
                transaction.forward_operations@ == first.forward_operations@ + ops.take(
                    done,
                ),
                transaction.reverse_operations@.len() == first.reverse_operations@.len() + done,
                transaction.reverse_operations@.take(first.reverse_operations@.len() as int)
                    == first.reverse_operations@,
                ops_reversed(
                    start,
                    ops.take(done),
                    transaction.reverse_operations@.skip(first.reverse_operations@.len() as int),
                    self.grid,
                ),
                forall|i: int|
                    first.reverse_operations@.len() <= i < transaction.reverse_operations@.len()
                        ==> (#[trigger] transaction.reverse_operations@[i]).wf(),
            decreases transaction.operations@.len(),
        {
            let ghost grid_before = self.grid;
            let ghost tx_before = *transaction;
            assert(transaction.operations@[0] == ops[done]);
            let r = self.execute_operation(transaction);
            proof {
                assert(ops.skip(done).skip(1) == ops.skip(done + 1));
                assert(ops.take(done + 1).drop_last() == ops.take(done));
                assert(ops.take(done + 1).last() == ops[done]);
            }
            match r {
                Ok(_) => {
                    proof {
                        let n = first.reverse_operations@.len() as int;
                        let was = tx_before.reverse_operations@;
                        let now = transaction.reverse_operations@;
                        assert(now.drop_last() == was);
                        assert(now.take(n) =~= was.take(n));
                        assert(now.skip(n).drop_last() =~= was.skip(n));
                        assert(now.skip(n).last() == now.last());
                        assert(op_reverses(grid_before, ops[done], self.grid, now.last()));
                        assert(ops_reversed(start, ops.take(done + 1), now.skip(n), self.grid));
                        assert(op_effect(grid_before, ops[done], self.grid));
                        assert(first.forward_operations@ + ops.take(done + 1) == (
                        first.forward_operations@ + ops.take(done)).push(ops[done]));
                        assert forall|i: int|
                            first.reverse_operations@.len() <= i
                                < transaction.reverse_operations@.len() implies (
                        #[trigger] transaction.reverse_operations@[i]).wf() by {
                            if i < tx_before.reverse_operations@.len() {
                                assert(transaction.reverse_operations@.drop_last()[i]
                                    == tx_before.reverse_operations@[i]);
                            }
                        }
                    }
                    proof {
                        done = done + 1;
                    }
                },
                Err(e) => {
                    proof {
                        assert(self.grid.sheets@ == grid_before.sheets@);
                        lemma_ops_reversed_same_sheets(
                            start,
                            ops.take(done),
                            transaction.reverse_operations@.skip(
                                first.reverse_operations@.len() as int,
                            ),
                            grid_before,
                            self.grid,
                        );
                        lemma_ops_effect_same_sheets(
                            start,
                            ops.take(done),
                            grid_before,
                            self.grid,
                        );
                        lemma_op_error_same_sheets(grid_before, self.grid, ops[done]);
                    }
                    return Err(e);
                },
            }
        }
        proof {
            assert(ops.take(ops.len() as int) == ops);
        }
        Ok(())
    }

    /// Everything but the grid is the same in both controllers.
    pub open spec fn same_history(self, other: GridController) -> bool {
        &&& self.undo_stack@ == other.undo_stack@
        &&& self.redo_stack@ == other.redo_stack@
        &&& self.unsaved_transactions@ == other.unsaved_transactions@
        &&& self.out_of_order_later_transactions@ == other.out_of_order_later_transactions@
        &&& self.last_sequence_num == other.last_sequence_num
    }

    /// Files a transaction that has run. What a user did goes to the undo
    /// stack as the operations that undo it, last one first, and what could be
    /// redone is forgotten; what was undone goes to the redo stack, and what
    /// was redone to the undo stack again. In these three cases the
    /// transaction also waits for the server to confirm it. What came from
    /// the server or from other users is not filed.
    pub fn finalize_transaction(&mut self, transaction: PendingTransaction)
        requires
            ops_wf(transaction.reverse_operations@),
        ensures
            final(self).grid == old(self).grid,
            final(self).last_sequence_num == old(self).last_sequence_num,
            final(self).out_of_order_later_transactions@ == old(self).out_of_order_later_transactions@,
            old(self).history_wf() && ops_wf(transaction.forward_operations@)
                ==> final(self).history_wf(),
            match transaction.source {
                TransactionSource::User => {
                    &&& final(self).undo_stack@.len() == old(self).undo_stack@.len() + 1
                    &&& final(self).undo_stack@.drop_last() == old(self).undo_stack@
                    &&& final(self).undo_stack@.last().operations@
                        == transaction.reverse_operations@.reverse()
                    &&& final(self).redo_stack@.len() == 0
                    &&& filed(*old(self), transaction, *final(self))
                },
                TransactionSource::Undo => {
                    &&& final(self).redo_stack@.len() == old(self).redo_stack@.len() + 1
                    &&& final(self).redo_stack@.drop_last() == old(self).redo_stack@
                    &&& final(self).redo_stack@.last().operations@
                        == transaction.reverse_operations@.reverse()
                    &&& final(self).undo_stack@ == old(self).undo_stack@
                    &&& filed(*old(self), transaction, *final(self))
                },
                TransactionSource::Redo => {
                    &&& final(self).undo_stack@.len() == old(self).undo_stack@.len() + 1
                    &&& final(self).undo_stack@.drop_last() == old(self).undo_stack@
                    &&& final(self).undo_stack@.last().operations@
                        == transaction.reverse_operations@.reverse()
                    &&& final(self).redo_stack@ == old(self).redo_stack@
                    &&& filed(*old(self), transaction, *final(self))
                },
                _ => final(self).same_history(*old(self)),
            },
    {
        let PendingTransaction {
            id,
            name: _,
            source,
            cursor,
            operations: _,
            forward_operations,
            reverse_operations,
            dirty: _,
            sheets_modified: _,
            code_requests: _,
        } = transaction;
        match source {
            TransactionSource::User | TransactionSource::Undo | TransactionSource::Redo => {},
            _ => {
                return ;
            },
        }
        let undoing = reversed(reverse_operations);
        let mut copies: Vec<Operation> = Vec::new();
        push_duplicates(&mut copies, &undoing);
        assert(copies@.skip(0) == copies@);
        let unsaved = UnsavedTransaction {
            forward: Transaction {
                id,
                sequence_num: None,
                operations: forward_operations,
                cursor: clone_opt_string(&cursor),
            },
            reverse: Transaction {
                id,
                sequence_num: None,
                operations: copies,
                cursor: clone_opt_string(&cursor),
            },
            sent_to_server: false,
        };
        let undo = Transaction { id, sequence_num: None, operations: undoing, cursor };
        match source {
            TransactionSource::User => {
                self.undo_stack.push(undo);
                self.redo_stack.clear();
            },
            TransactionSource::Undo => {
                self.redo_stack.push(undo);
            },
            _ => {
                self.undo_stack.push(undo);
            },
        }
        self.unsaved_transactions.push(unsaved);
        proof {
            assert(self.undo_stack@.len() == old(self).undo_stack@.len() + 1
                ==> self.undo_stack@.drop_last() =~= old(self).undo_stack@);
            assert(self.redo_stack@.len() == old(self).redo_stack@.len() + 1
                ==> self.redo_stack@.drop_last() =~= old(self).redo_stack@);
            assert(self.unsaved_transactions@.drop_last() =~= old(self).unsaved_transactions@);
        }
    }

    /// Runs the operations as a transaction of the user and files it.
    /// Returns the error of the operation that could not be applied; the
    /// transaction is then not filed, and what it had applied stays applied.
    pub fn start_user_transaction(
        &mut self,
        operations: Vec<Operation>,
        cursor: Option<String>,
        transaction_name: TransactionName,
    ) -> (r: Result<(), TransactionError>)
        requires
            old(self).wf(),
            forall|i: int| 0 <= i < operations@.len() ==> (#[trigger] operations@[i]).wf(),
        ensures
            final(self).wf(),
            old(self).history_wf() ==> final(self).history_wf(),
            old(self).held_wf() ==> final(self).held_wf(),
            final(self).last_sequence_num == old(self).last_sequence_num,
            match r {
                Ok(_) => {
                    &&& ops_effect(old(self).grid, operations@, final(self).grid)
                    &&& final(self).undo_stack@.len() == old(self).undo_stack@.len() + 1
                    &&& final(self).undo_stack@.drop_last() == old(self).undo_stack@
                    &&& ops_reversed(
                        old(self).grid,
                        operations@,
                        final(self).undo_stack@.last().operations@.reverse(),
                        final(self).grid,
                    )
                    &&& final(self).redo_stack@.len() == 0
                    &&& final(self).unsaved_transactions@.len() == old(self).unsaved_transactions@.len() + 1
                    &&& final(self).unsaved_transactions@.last().forward.operations@ == operations@
                },
                Err(e) => {
                    &&& final(self).same_history(*old(self))
                    &&& exists|k: int|
                        0 <= k < operations@.len() && #[trigger] ops_effect(
                            old(self).grid,
                            operations@.take(k),
                            final(self).grid,
                        ) && op_error(final(self).grid, operations@[k]) == Some(e)
                },
            },
    {
        let mut transaction = PendingTransaction::new(
            random_uuid(),
            transaction_name,
            TransactionSource::User,
            cursor,
            operations,
        );
        match self.run_transaction(&mut transaction) {
            Ok(_) => {
                let ghost reverses = transaction.reverse_operations@;
                proof {
                    assert(transaction.forward_operations@ =~= operations@);
                    assert(reverses.skip(0) == reverses);
                    assert(reverses.reverse().reverse() =~= reverses);
                }
                self.finalize_transaction(transaction);
                Ok(())
            },
            Err(e) => Err(e),
        }
    }

    /// Whether there is something to undo.
    pub fn has_undo(&self) -> (b: bool)
        ensures
            b == (self.undo_stack@.len() > 0),
    {
        self.undo_stack.len() > 0
    }

    /// Whether there is something to redo.
    pub fn has_redo(&self) -> (b: bool)
        ensures
            b == (self.redo_stack@.len() > 0),
    {
        self.redo_stack.len() > 0
    }

    /// Undoes the last transaction on the undo stack: applies the operations
    /// that undo it and files them, so that it can be redone. Returns whether
    /// there was anything to undo.
    pub fn undo(&mut self, cursor: Option<String>) -> (r: Result<bool, TransactionError>)
        requires
            old(self).wf(),
            forall|i: int|
                0 <= i < old(self).undo_stack@.len() ==> (#[trigger] old(self).undo_stack@[i]).wf(),
        ensures
            final(self).wf(),
            old(self).history_wf() ==> final(self).history_wf(),
            old(self).held_wf() ==> final(self).held_wf(),
            old(self).undo_stack@.len() == 0 ==> r == Ok::<bool, TransactionError>(false) && final(self).grid == old(self).grid && final(self).same_history(*old(self)),
            old(self).undo_stack@.len() > 0 ==> match r {
                Ok(b) => {
                    &&& b
                    &&& ops_effect(
                        old(self).grid,
                        old(self).undo_stack@.last().operations@,
                        final(self).grid,
                    )
                    &&& final(self).undo_stack@ == old(self).undo_stack@.drop_last()
                    &&& final(self).redo_stack@.len() == old(self).redo_stack@.len() + 1
                },
                Err(e) => {
                    &&& final(self).undo_stack@ == old(self).undo_stack@.drop_last()
                    &&& final(self).redo_stack@ == old(self).redo_stack@
                    &&& final(self).unsaved_transactions@ == old(self).unsaved_transactions@
                    &&& failed_at(
                        old(self).grid,
                        old(self).undo_stack@.last().operations@,
                        final(self).grid,
                        e,
                    )
                },
            },
    {
        let last = match self.undo_stack.pop() {
            Some(t) => t,
            None => {
                return Ok(false);
            },
        };
        proof {
            assert(last == old(self).undo_stack@.last());
        }
        let ghost ops = last.operations@;
        let mut transaction = PendingTransaction::new(
            random_uuid(),
            TransactionName::Undo,
            TransactionSource::Undo,
            cursor,
            last.operations,
        );
        match self.run_transaction(&mut transaction) {
            Ok(_) => {
                self.finalize_transaction(transaction);
                Ok(true)
            },
            Err(e) => Err(e),
        }
    }

    /// Does the last undone transaction again: applies the operations that
    /// undo the undoing and files them, so that it can be undone once more.
    /// Returns whether there was anything to redo.
    pub fn redo(&mut self, cursor: Option<String>) -> (r: Result<bool, TransactionError>)
        requires
            old(self).wf(),
            forall|i: int|
                0 <= i < old(self).redo_stack@.len() ==> (#[trigger] old(self).redo_stack@[i]).wf(),
        ensures
            final(self).wf(),
            old(self).history_wf() ==> final(self).history_wf(),
            old(self).held_wf() ==> final(self).held_wf(),
            old(self).redo_stack@.len() == 0 ==> r == Ok::<bool, TransactionError>(false) && final(self).grid == old(self).grid && final(self).same_history(*old(self)),
            old(self).redo_stack@.len() > 0 ==> match r {
                Ok(b) => {
                    &&& b
                    &&& ops_effect(
                        old(self).grid,
                        old(self).redo_stack@.last().operations@,
                        final(self).grid,
                    )
                    &&& final(self).redo_stack@ == old(self).redo_stack@.drop_last()
                    &&& final(self).undo_stack@.len() == old(self).undo_stack@.len() + 1
                },
                Err(e) => {
                    &&& final(self).redo_stack@ == old(self).redo_stack@.drop_last()
                    &&& final(self).undo_stack@ == old(self).undo_stack@
                    &&& final(self).unsaved_transactions@ == old(self).unsaved_transactions@
                    &&& failed_at(
                        old(self).grid,
                        old(self).redo_stack@.last().operations@,
                        final(self).grid,
                        e,
                    )
                },
            },
    {
        let last = match self.redo_stack.pop() {
            Some(t) => t,
            None => {
                return Ok(false);
            },
        };
        proof {
            assert(last == old(self).redo_stack@.last());
        }
        let mut transaction = PendingTransaction::new(
            random_uuid(),
            TransactionName::Redo,
            TransactionSource::Redo,
            cursor,
            last.operations,
        );
        match self.run_transaction(&mut transaction) {
            Ok(_) => {
                self.finalize_transaction(transaction);
                Ok(true)
            },
            Err(e) => Err(e),
        }
    }

    /// Applies operations that the server hands out. They are not filed:
    /// they can neither be undone here nor wait for confirmation.
    pub fn server_apply_transaction(&mut self, operations: Vec<Operation>) -> (r: Result<
        (),
        TransactionError,
    >)
        requires
            old(self).wf(),
            forall|i: int| 0 <= i < operations@.len() ==> (#[trigger] operations@[i]).wf(),
        ensures
            final(self).wf(),
            old(self).history_wf() ==> final(self).history_wf(),
            old(self).held_wf() ==> final(self).held_wf(),
            final(self).same_history(*old(self)),
            match r {
                Ok(_) => ops_effect(old(self).grid, operations@, final(self).grid),
                Err(e) => exists|k: int|
                    0 <= k < operations@.len() && #[trigger] ops_effect(
                        old(self).grid,
                        operations@.take(k),
                        final(self).grid,
                    ) && op_error(final(self).grid, operations@[k]) == Some(e),
            },
    {
        let mut transaction = PendingTransaction::new(
            random_uuid(),
            TransactionName::Multiplayer,
            TransactionSource::Server,
            None,
            operations,
        );
        self.run_transaction(&mut transaction)
    }
}

/// The transaction waits for confirmation behind the others: its id, and
/// the operations that it applied.
pub open spec fn filed(
    before: GridController,
    transaction: PendingTransaction,
    after: GridController,
) -> bool {
    &&& after.unsaved_transactions@.len() == before.unsaved_transactions@.len() + 1
    &&& after.unsaved_transactions@.drop_last() == before.unsaved_transactions@
    &&& after.unsaved_transactions@.last().forward.id == transaction.id
    &&& after.unsaved_transactions@.last().forward.sequence_num is None
    &&& after.unsaved_transactions@.last().forward.operations == transaction.forward_operations
    &&& ops_alike(
        after.unsaved_transactions@.last().reverse.operations@,
        transaction.reverse_operations@.reverse(),
    )
    &&& !after.unsaved_transactions@.last().sent_to_server
}

/// The effect of operations depends on the sheets of the grid alone.
pub proof fn lemma_ops_effect_same_sheets(before: Grid, ops: Seq<Operation>, a: Grid, b: Grid)
    requires
        ops_effect(before, ops, a),
        a.sheets@ == b.sheets@,
    ensures
        ops_effect(before, ops, b),
    decreases ops.len(),
{
    if ops.len() > 0 {
        let mid = choose|mid: Grid|
            {
                &&& op_error(mid, ops.last()) is None
                &&& #[trigger] op_effect(mid, ops.last(), a)
                &&& ops_effect(before, ops.drop_last(), mid)
            };
        assert(op_effect(mid, ops.last(), b));
    }
}

/// The effect of operations and the operations that undo them depend on
/// the sheets of the grid alone.
pub proof fn lemma_ops_reversed_same_sheets(
    before: Grid,
    ops: Seq<Operation>,
    reverses: Seq<Operation>,
    a: Grid,
    b: Grid,
)
    requires
        ops_reversed(before, ops, reverses, a),
        a.sheets@ == b.sheets@,
    ensures
        ops_reversed(before, ops, reverses, b),
    decreases ops.len(),
{
    if ops.len() > 0 {
        let mid = choose|mid: Grid|
            {
                &&& op_error(mid, ops.last()) is None
                &&& #[trigger] op_effect(mid, ops.last(), a)
                &&& op_reverses(mid, ops.last(), a, reverses.last())
                &&& ops_reversed(before, ops.drop_last(), reverses.drop_last(), mid)
            };
        assert(op_effect(mid, ops.last(), b));
        assert(op_reverses(mid, ops.last(), b, reverses.last()));
    }
}

/// Whether an operation can be applied depends on the sheets of the grid
/// alone.
pub proof fn lemma_op_error_same_sheets(a: Grid, b: Grid, op: Operation)
    requires
        a.sheets@ == b.sheets@,
    ensures
        op_error(a, op) == op_error(b, op),
{
}

} // verus!
