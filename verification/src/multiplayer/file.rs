//! Checkpoints of a document: the transactions that wait are applied to
//! the last checkpoint, in the order of their sequence numbers, and the
//! outcome is the next checkpoint.

use crate::controller::execution::execute_operation::{
    apply_operation, op_effect, op_error, TransactionError,
};
use crate::controller::execution::run::ops_effect;
use crate::controller::operations::operation::Operation;
use crate::controller::transaction::{served_wf, TransactionServer};
use crate::controller::GridController;
use crate::grid::file::current::{
    export, import, imported, importable, refused, try_export,
};
use crate::grid::file::v1_6::schema as current;
use crate::grid::file::FileError;
use crate::grid::ids::{uuid_string, uuid_text};
use crate::grid::Grid;
use crate::multiplayer::state::transaction_queue::{
    greatest_number, last_given, no_room, others_kept, waiting, TransactionQueue,
};
use crate::order::{
    insert_sorted, is_sorted, lemma_insert_at, lemma_sorted_same, lemma_sorted_seq, sorted_seq,
    total_preorder,
};
use crate::values::decimal::{int_text, u128_to_string};
use crate::controller::execution::determinism::{
    lemma_grid_same_content_refl, lemma_ops_functional,
};
use vstd::prelude::*;
use vstd::string::StringExecFns;

verus! {

/// The name under which the checkpoint of a document at a sequence number is
/// stored: the id of the document, a hyphen, and the sequence number.
pub open spec fn key_text(file_id: u128, sequence: u64) -> Seq<char> {
    uuid_text(file_id) + "-"@ + int_text(sequence as int)
}

/// The name under which the checkpoint of a document at a sequence number is
/// stored.
pub fn key(file_id: u128, sequence: u64) -> (r: String)
    ensures
        r@ == key_text(file_id, sequence),
{
    let mut out = uuid_string(file_id);
    out.append("-");
    out.append(u128_to_string(sequence as u128).as_str());
    out
}

/// Apply a list of operations to the grid, as the server does.
pub fn apply_transaction(grid: &mut GridController, operations: Vec<Operation>) -> (r: Result<
    (),
    TransactionError,
>)
    requires
        old(grid).wf(),
        forall|i: int| 0 <= i < operations@.len() ==> (#[trigger] operations@[i]).wf(),
    ensures
        final(grid).wf(),
        final(grid).same_history(*old(grid)),
        match r {
            Ok(_) => ops_effect(old(grid).grid, operations@, final(grid).grid),
            Err(e) => exists|k: int|
                0 <= k < operations@.len() && #[trigger] ops_effect(
                    old(grid).grid,
                    operations@.take(k),
                    final(grid).grid,
                ) && op_error(final(grid).grid, operations@[k]) == Some(e),
        },
{
    grid.server_apply_transaction(operations)
}

/// The order of transactions: that of their sequence numbers.
pub open spec fn transaction_le() -> spec_fn(TransactionServer, TransactionServer) -> bool {
    |a: TransactionServer, b: TransactionServer| a.sequence_num <= b.sequence_num
}

/// The order of transactions is total and transitive.
pub proof fn lemma_transaction_le_total()
    ensures
        total_preorder(transaction_le()),
{
}

/// Puts a transaction behind the last one whose sequence number is at most
/// its own.
fn insert_in_sequence(transactions: &mut Vec<TransactionServer>, transaction: TransactionServer)
    ensures
        final(transactions)@ == insert_sorted(old(transactions)@, transaction, transaction_le()),
{
    let mut i: usize = transactions.len();
    while i > 0 && transactions[i - 1].sequence_num > transaction.sequence_num
        invariant
            i <= transactions@.len(),
            forall|j: int|
                i <= j < transactions@.len() ==> !transaction_le()(
                    #[trigger] transactions@[j],
                    transaction,
                ),
        decreases i,
    {
        i -= 1;
    }
    proof {
        lemma_insert_at(transactions@, transaction, transaction_le(), i as int);
    }
    transactions.insert(i, transaction);
}

/// Brings transactions into the order of their sequence numbers, whatever
/// order they arrived in.
pub fn sort_transactions(transactions: Vec<TransactionServer>) -> (r: Vec<TransactionServer>)
    ensures
        r@ == sorted_seq(transactions@, transaction_le()),
        is_sorted(r@, transaction_le()),
        r@.to_multiset() == transactions@.to_multiset(),
{
    let ghost all = transactions@;
    let mut out: Vec<TransactionServer> = Vec::new();
    assert(all.take(0) == Seq::<TransactionServer>::empty());
    for transaction in it: transactions
        invariant
            it.seq() == all,
            out@ == sorted_seq(all.take(it.index()), transaction_le()),
    {
        proof {
            let i = it.index();
            assert(all.take(i + 1).drop_last() == all.take(i));
            assert(all.take(i + 1).last() == all[i]);
        }
        insert_in_sequence(&mut out, transaction);
    }
    proof {
        assert(all.take(all.len() as int) == all);
        lemma_transaction_le_total();
        lemma_sorted_seq(all, transaction_le());
    }
    out
}

/// All the operations of the transactions, one transaction after the other.
pub open spec fn all_operations(transactions: Seq<TransactionServer>) -> Seq<Operation>
    decreases transactions.len(),
{
    if transactions.len() == 0 {
        Seq::empty()
    } else {
        all_operations(transactions.drop_last()) + transactions.last().operations@
    }
}

/// No two transactions have the same sequence number, unless they are the
/// same transaction.
pub open spec fn sequence_numbers_differ(transactions: Seq<TransactionServer>) -> bool {
    forall|i: int, j: int|
        0 <= i < transactions.len() && 0 <= j < transactions.len() && (
        #[trigger] transactions[i]).sequence_num == (#[trigger] transactions[j]).sequence_num
            ==> transactions[i] == transactions[j]
}

/// Two arrivals of the same transactions, in whatever order, are replayed
/// in the same order: brought into the order of their sequence numbers they
/// are the same sequence, and so are the operations that are applied. The
/// sequence numbers must tell the transactions apart.
pub proof fn lemma_replay_order(a: Seq<TransactionServer>, b: Seq<TransactionServer>)
    requires
        a.to_multiset() == b.to_multiset(),
        sequence_numbers_differ(a),
    ensures
        sorted_seq(a, transaction_le()) == sorted_seq(b, transaction_le()),
        all_operations(sorted_seq(a, transaction_le())) == all_operations(
            sorted_seq(b, transaction_le()),
        ),
{
    lemma_transaction_le_total();
    lemma_sorted_seq(a, transaction_le());
    lemma_sorted_seq(b, transaction_le());
    let x = sorted_seq(a, transaction_le());
    let y = sorted_seq(b, transaction_le());
    assert forall|u: TransactionServer, v: TransactionServer|
        x.contains(u) && x.contains(v) && #[trigger] transaction_le()(u, v)
            && #[trigger] transaction_le()(v, u) implies u == v by {
        assert(a.contains(u) && a.contains(v));
        let i = choose|i: int| 0 <= i < a.len() && a[i] == u;
        let j = choose|j: int| 0 <= j < a.len() && a[j] == v;
        assert(a[i].sequence_num == a[j].sequence_num);
    }
    lemma_sorted_same(x, y, transaction_le());
}

/// Replaying the same transactions from the
/// same checkpoint in the order of their sequence numbers gives grids that
/// show the same, whatever order the transactions arrived in. The sequence
/// numbers must tell the transactions apart.
pub proof fn lemma_replay_deterministic(
    checkpoint: Grid,
    a: Seq<TransactionServer>,
    b: Seq<TransactionServer>,
    after_a: Grid,
    after_b: Grid,
)
    requires
        a.to_multiset() == b.to_multiset(),
        sequence_numbers_differ(a),
        ops_effect(checkpoint, all_operations(sorted_seq(a, transaction_le())), after_a),
        ops_effect(checkpoint, all_operations(sorted_seq(b, transaction_le())), after_b),
    ensures
        after_a.same_content(after_b),
{
    lemma_replay_order(a, b);
    lemma_grid_same_content_refl(checkpoint);
    lemma_ops_functional(
        checkpoint,
        checkpoint,
        all_operations(sorted_seq(a, transaction_le())),
        after_a,
        after_b,
    );
}

/// Applying operations one after the other, and then one more, is applying
/// all of them.
pub proof fn lemma_ops_effect_push(before: Grid, ops: Seq<Operation>, mid: Grid, op: Operation, after: Grid)
    requires
        ops_effect(before, ops, mid),
        op_error(mid, op) is None,
        op_effect(mid, op, after),
    ensures
        ops_effect(before, ops.push(op), after),
{
    assert(ops.push(op).drop_last() == ops);
}

/// Applies the operations of the transactions to the grid, one transaction
/// after the other in the order given. The first operation that cannot be
/// applied ends it with its error; what was applied before stays applied.
pub fn apply_all(grid: &mut Grid, transactions: &Vec<TransactionServer>) -> (r: Result<
    (),
    TransactionError,
>)
    requires
        old(grid).wf(),
        served_wf(transactions@),
    ensures
        final(grid).wf(),
        match r {
            Ok(_) => ops_effect(*old(grid), all_operations(transactions@), *final(grid)),
            Err(e) => exists|k: int|
                0 <= k < all_operations(transactions@).len() && #[trigger] ops_effect(
                    *old(grid),
                    all_operations(transactions@).take(k),
                    *final(grid),
                ) && op_error(*final(grid), all_operations(transactions@)[k]) == Some(e),
        },
{
    let ghost start = *grid;
    let ghost all = all_operations(transactions@);
    let mut t: usize = 0;
    assert(transactions@.take(0) == Seq::<TransactionServer>::empty());
    while t < transactions.len()
        invariant
            t <= transactions@.len(),
            grid.wf(),
            start == *old(grid),
            all == all_operations(transactions@),
            served_wf(transactions@),
            ops_effect(start, all_operations(transactions@.take(t as int)), *grid),
        decreases transactions.len() - t,
    {
        let ops = &transactions[t].operations;
        let ghost done = all_operations(transactions@.take(t as int));
        proof {
            assert(transactions@.take(t + 1).drop_last() == transactions@.take(t as int));
            assert(transactions@.take(t + 1).last() == transactions@[t as int]);
            assert(transactions@[t as int].wf());
            lemma_all_operations_prefix(transactions@, t as int);
        }
        let mut k: usize = 0;
        assert(done + ops@.take(0) == done);
        while k < ops.len()
            invariant
                k <= ops@.len(),
                t < transactions@.len(),
                *ops == transactions@[t as int].operations,
                grid.wf(),
                start == *old(grid),
                all == all_operations(transactions@),
                served_wf(transactions@),
                done == all_operations(transactions@.take(t as int)),
                all.take((done.len() + ops@.len()) as int) == done + ops@,
                done.len() + ops@.len() <= all.len(),
                ops_effect(start, done + ops@.take(k as int), *grid),
            decreases ops.len() - k,
        {
            let ghost before = *grid;
            proof {
                assert(transactions@[t as int].operations@[k as int].wf());
                assert((done + ops@.take(k as int)).push(ops@[k as int]) == done + ops@.take(k + 1));
                assert(all[done.len() + k] == (done + ops@)[done.len() + k]);
                assert(all.take((done.len() + k) as int) == done + ops@.take(k as int)) by {
                    assert(all.take((done.len() + ops@.len()) as int).take((done.len() + k) as int)
                        == all.take((done.len() + k) as int));
                    assert((done + ops@).take((done.len() + k) as int) == done + ops@.take(
                        k as int,
                    ));
                }
            }
            match apply_operation(grid, &ops[k]) {
                Ok(_) => {
                    proof {
                        lemma_ops_effect_push(
                            start,
                            done + ops@.take(k as int),
                            before,
                            ops@[k as int],
                            *grid,
                        );
                    }
                },
                Err(e) => {
                    proof {
                        crate::controller::execution::run::lemma_ops_effect_same_sheets(
                            start,
                            done + ops@.take(k as int),
                            before,
                            *grid,
                        );
                        crate::controller::execution::run::lemma_op_error_same_sheets(
                            before,
                            *grid,
                            ops@[k as int],
                        );
                    }
                    return Err(e);
                },
            }
            k += 1;
        }
        proof {
            assert(ops@.take(ops@.len() as int) == ops@);
        }
        t += 1;
    }
    proof {
        assert(transactions@.take(transactions@.len() as int) == transactions@);
    }
    Ok(())
}

/// The operations of the first `t` transactions are the first operations of
/// all transactions, and those of the next transaction follow them.
pub proof fn lemma_all_operations_prefix(transactions: Seq<TransactionServer>, t: int)
    requires
        0 <= t < transactions.len(),
    ensures
        all_operations(transactions.take(t)).len() + transactions[t].operations@.len()
            <= all_operations(transactions).len(),
        all_operations(transactions).take(
            (all_operations(transactions.take(t)).len() + transactions[t].operations@.len()) as int,
        ) == all_operations(transactions.take(t)) + transactions[t].operations@,
    decreases transactions.len(),
{
    let head = transactions.drop_last();
    if t == transactions.len() - 1 {
        assert(transactions.take(t) == head);
        assert(all_operations(transactions).take(all_operations(transactions).len() as int)
            == all_operations(transactions));
    } else {
        lemma_all_operations_prefix(head, t);
        assert(head.take(t) == transactions.take(t));
        assert(head[t] == transactions[t]);
        let n = all_operations(transactions.take(t)).len() + transactions[t].operations@.len();
        assert(all_operations(transactions).take(n as int) == all_operations(head).take(n as int));
    }
}

/// Every transaction is for the document.
pub open spec fn all_for(transactions: Seq<TransactionServer>, file_id: u128) -> bool {
    forall|i: int| 0 <= i < transactions.len() ==> (#[trigger] transactions[i]).file_id == file_id
}

/// What a checkpoint may end in, other than success.
#[derive(Debug, PartialEq, Eq)]
pub enum CheckpointError {
    /// The last checkpoint could not be read.
    File(FileError),
    /// A waiting operation could not be applied to the last checkpoint.
    Transaction(TransactionError),
    /// The grid holds a number that cannot be written as it is.
    NotStorable,
    /// Storage or the registry failed.
    Io,
    /// Something happened that was not waited for.
    OutOfTurn,
}

/// Where the making of a checkpoint stands.
#[derive(Debug, PartialEq, Eq)]
#[allow(inconsistent_fields)]
pub enum CheckpointState {
    /// Nothing has begun.
    Idle,
    /// The last checkpoint is being fetched; the transactions taken from the
    /// queue wait to be applied to it.
    Loading { file_id: u128, checkpoint_sequence_num: u64, transactions: Vec<TransactionServer> },
    /// The new checkpoint is being stored; the transactions that are part of
    /// it are kept in case it cannot be.
    Uploading { file_id: u128, last_sequence_num: u64, transactions: Vec<TransactionServer> },
    /// The new checkpoint is being made known to the registry; the
    /// transactions that are part of it are kept in case it cannot be.
    Registering { file_id: u128, last_sequence_num: u64, transactions: Vec<TransactionServer> },
    /// The end: the sequence number of the new checkpoint, or none where
    /// nothing waited.
    Finished(Option<u64>),
    /// The end, without a new checkpoint.
    Failed(CheckpointError),
}

/// What has happened outside since the last step.
#[derive(Debug, PartialEq, Eq)]
#[allow(inconsistent_fields)]
pub enum CheckpointEvent {
    /// A checkpoint is asked for, of the document whose last checkpoint has
    /// the given sequence number.
    Begin { file_id: u128, checkpoint_sequence_num: u64 },
    /// The last checkpoint has been fetched and decoded.
    Loaded { file: current::GridSchema },
    /// The new checkpoint has been stored.
    Uploaded,
    /// The registry knows of the new checkpoint.
    Registered,
    /// Fetching, storing or registering failed.
    IoFailed,
}

/// What is to be done outside next.
#[derive(Debug, PartialEq, Eq)]
#[allow(inconsistent_fields)]
pub enum CheckpointAction {
    /// Fetch the checkpoint stored under `key`.
    Download { key: String },
    /// Store `file` under `key`.
    Upload { key: String, file: current::GridSchema },
    /// Tell the registry that the checkpoint of the document at
    /// `sequence_num`, in the given version, is stored under `key`.
    SetFileCheckpoint { file_id: u128, sequence_num: u64, version: String, key: String },
    /// Nothing more: report the sequence number of the new checkpoint, or
    /// none.
    Finish(Option<u64>),
    /// Nothing more: report the failure.
    Abort,
}

/// What the first step does: the waiting transactions of the document leave
/// the queue, and the queues of the other documents stay as they are; where
/// none waits, that is the end and the queue is unchanged; else the last
/// checkpoint is to be fetched.
pub open spec fn begun(
    queue: TransactionQueue,
    file_id: u128,
    checkpoint_sequence_num: u64,
    new_queue: TransactionQueue,
    next: CheckpointState,
    action: CheckpointAction,
) -> bool {
    let taken = waiting(queue.rooms@, file_id);
    &&& waiting(new_queue.rooms@, file_id).len() == 0
    &&& last_given(new_queue.rooms@, file_id, 0) == last_given(queue.rooms@, file_id, 0)
    &&& others_kept(queue.rooms@, new_queue.rooms@, file_id)
    &&& if taken.len() == 0 {
        &&& next == CheckpointState::Finished(None)
        &&& action == CheckpointAction::Finish(None)
        &&& new_queue.rooms@ == queue.rooms@
    } else {
        &&& next matches CheckpointState::Loading {
            file_id: f,
            checkpoint_sequence_num: c,
            transactions,
        }
        &&& f == file_id
        &&& c == checkpoint_sequence_num
        &&& transactions@ == taken
        &&& all_for(transactions@, file_id)
        &&& action matches CheckpointAction::Download { key: k }
        &&& k@ == key_text(file_id, checkpoint_sequence_num)
    }
}

/// The transactions in the order in which they are applied: that of their
/// sequence numbers.
pub open spec fn in_turn(transactions: Seq<TransactionServer>) -> Seq<TransactionServer> {
    sorted_seq(transactions, transaction_le())
}

/// What the step after fetching does where all goes well: the waiting
/// operations are applied, in the order of the sequence numbers of their
/// transactions, to the grid that the last checkpoint stands for, and the
/// grid that results is to be stored under the greatest of those numbers.
pub open spec fn loaded(
    file: current::GridSchema,
    file_id: u128,
    transactions: Seq<TransactionServer>,
    next: CheckpointState,
    action: CheckpointAction,
) -> bool {
    &&& next matches CheckpointState::Uploading { file_id: f, last_sequence_num, transactions: kept }
    &&& f == file_id
    &&& greatest_number(transactions, last_sequence_num)
    &&& kept@ == in_turn(transactions)
    &&& all_for(kept@, file_id)
    &&& action matches CheckpointAction::Upload { key: k, file: stored }
    &&& k@ == key_text(file_id, last_sequence_num)
    &&& importable(stored)
    &&& exists|from: Grid, to: Grid|
        #![trigger ops_effect(from, all_operations(in_turn(transactions)), to)]
        imported(file, from) && ops_effect(from, all_operations(in_turn(transactions)), to)
            && imported(stored, to)
}

/// The transactions are back at the head of the queue of their document,
/// before those that have come since; the sequence numbers of the document
/// go on from where they were, or from the greatest number put back where
/// the document had no queue; and the queues of the other documents are as
/// they were.
pub open spec fn put_back(
    queue: TransactionQueue,
    file_id: u128,
    transactions: Seq<TransactionServer>,
    new_queue: TransactionQueue,
) -> bool {
    &&& waiting(new_queue.rooms@, file_id) == transactions + waiting(queue.rooms@, file_id)
    &&& !no_room(queue.rooms@, file_id) ==> last_given(new_queue.rooms@, file_id, 0) == last_given(
        queue.rooms@,
        file_id,
        0,
    )
    &&& no_room(queue.rooms@, file_id) && transactions.len() > 0 ==> greatest_number(
        transactions,
        last_given(new_queue.rooms@, file_id, 0),
    )
    &&& others_kept(queue.rooms@, new_queue.rooms@, file_id)
}

/// The checkpoint is given up with the error `e`, and the transactions
/// that were taken for it are put back.
pub open spec fn given_up(
    queue: TransactionQueue,
    file_id: u128,
    transactions: Seq<TransactionServer>,
    new_queue: TransactionQueue,
    e: CheckpointError,
    next: CheckpointState,
    action: CheckpointAction,
) -> bool {
    &&& next == CheckpointState::Failed(e)
    &&& action == CheckpointAction::Abort
    &&& put_back(queue, file_id, transactions, new_queue)
}

/// Brought into the order of their sequence numbers, the transactions are
/// still all there, well formed and for the same document, and the last of
/// them has the greatest number.
pub proof fn lemma_in_turn(transactions: Seq<TransactionServer>, file_id: u128)
    requires
        transactions.len() > 0,
    ensures
        in_turn(transactions).len() == transactions.len(),
        is_sorted(in_turn(transactions), transaction_le()),
        greatest_number(transactions, in_turn(transactions).last().sequence_num),
        served_wf(transactions) ==> served_wf(in_turn(transactions)),
        all_for(transactions, file_id) ==> all_for(in_turn(transactions), file_id),
{
    lemma_transaction_le_total();
    lemma_sorted_seq(transactions, transaction_le());
    let sorted = in_turn(transactions);
    let last = sorted.last();
    assert(sorted.contains(last));
    assert(transactions.contains(last));
    assert forall|i: int| 0 <= i < transactions.len() implies (
    #[trigger] transactions[i]).sequence_num <= last.sequence_num by {
        assert(transactions.contains(transactions[i]));
        assert(sorted.contains(transactions[i]));
        let k = choose|k: int| 0 <= k < sorted.len() && sorted[k] == transactions[i];
        if k < sorted.len() - 1 {
            assert(transaction_le()(sorted[k], sorted[sorted.len() - 1]));
        }
    }
    if served_wf(transactions) {
        assert forall|k: int| 0 <= k < sorted.len() implies (#[trigger] sorted[k]).wf() by {
            assert(sorted.contains(sorted[k]));
            assert(transactions.contains(sorted[k]));
        }
    }
    if all_for(transactions, file_id) {
        assert forall|k: int| 0 <= k < sorted.len() implies (#[trigger] sorted[k]).file_id
            == file_id by {
            assert(sorted.contains(sorted[k]));
            assert(transactions.contains(sorted[k]));
        }
    }
}

/// What the step after storing does: the registry is to be told of the new
/// checkpoint.
pub open spec fn uploaded(
    file_id: u128,
    last_sequence_num: u64,
    transactions: Seq<TransactionServer>,
    next: CheckpointState,
    action: CheckpointAction,
) -> bool {
    &&& next matches CheckpointState::Registering { file_id: g, last_sequence_num: n, transactions: kept }
    &&& g == file_id
    &&& n == last_sequence_num
    &&& kept@ == transactions
    &&& action matches CheckpointAction::SetFileCheckpoint {
        file_id: f,
        sequence_num,
        version,
        key: k,
    }
    &&& f == file_id
    &&& sequence_num == last_sequence_num
    &&& version@ == crate::grid::file::CURRENT_VERSION@
    &&& k@ == key_text(file_id, last_sequence_num)
}

/// One step of making a checkpoint: given where it stands and what has
/// happened outside, says where it stands now and what is to be done outside
/// next. The steps, in order: the waiting transactions are taken from the
/// queue and the last checkpoint is asked for; the transactions are applied
/// to it in the order of their sequence numbers and the outcome is handed
/// out to be stored; the registry is told of it, once, with the greatest of
/// those sequence numbers; the end. While this goes well, the queue is not
/// touched after the first step. Where fetching, reading, applying, storing
/// or registering fails, or something happens that is not waited for, the
/// transactions go back to the head of the queue and the checkpoint is
/// given up.
pub fn checkpoint_step(
    state: CheckpointState,
    event: CheckpointEvent,
    queue: &mut TransactionQueue,
) -> (r: (CheckpointState, CheckpointAction))
    requires
        old(queue).wf(),
        state matches CheckpointState::Loading { file_id, transactions, .. } ==> served_wf(
            transactions@,
        ) && transactions@.len() > 0 && all_for(transactions@, file_id),
        state matches CheckpointState::Uploading { file_id, transactions, .. } ==> all_for(
            transactions@,
            file_id,
        ),
        state matches CheckpointState::Registering { file_id, transactions, .. } ==> all_for(
            transactions@,
            file_id,
        ),
    ensures
        final(queue).wf(),
        match (state, event) {
            (
                CheckpointState::Idle,
                CheckpointEvent::Begin { file_id, checkpoint_sequence_num },
            ) => begun(*old(queue), file_id, checkpoint_sequence_num, *final(queue), r.0, r.1),
            (
                CheckpointState::Loading { file_id, checkpoint_sequence_num, transactions },
                CheckpointEvent::Loaded { file },
            ) => (loaded(file, file_id, transactions@, r.0, r.1) && final(queue).rooms@ == old(queue).rooms@) || exists|e: CheckpointError|
                fold_failed(file, in_turn(transactions@), e) && #[trigger] given_up(
                    *old(queue),
                    file_id,
                    in_turn(transactions@),
                    *final(queue),
                    e,
                    r.0,
                    r.1,
                ),
            (
                CheckpointState::Uploading { file_id, last_sequence_num, transactions },
                CheckpointEvent::Uploaded,
            ) => uploaded(file_id, last_sequence_num, transactions@, r.0, r.1) && final(queue).rooms@ == old(queue).rooms@,
            (
                CheckpointState::Registering { file_id, last_sequence_num, transactions },
                CheckpointEvent::Registered,
            ) => r.0 == CheckpointState::Finished(Some(last_sequence_num)) && r.1
                == CheckpointAction::Finish(Some(last_sequence_num)) && final(queue).rooms@ == old(queue).rooms@,
            (CheckpointState::Loading { file_id, transactions, .. }, event) => given_up(
                *old(queue),
                file_id,
                transactions@,
                *final(queue),
                out_of_turn(event),
                r.0,
                r.1,
            ),
            (CheckpointState::Uploading { file_id, transactions, .. }, event) => given_up(
                *old(queue),
                file_id,
                transactions@,
                *final(queue),
                out_of_turn(event),
                r.0,
                r.1,
            ),
            (CheckpointState::Registering { file_id, transactions, .. }, event) => given_up(
                *old(queue),
                file_id,
                transactions@,
                *final(queue),
                out_of_turn(event),
                r.0,
                r.1,
            ),
            _ => r.0 == CheckpointState::Failed(CheckpointError::OutOfTurn) && r.1
                == CheckpointAction::Abort && final(queue).rooms@ == old(queue).rooms@,
        },
{
    match (state, event) {
        (CheckpointState::Idle, CheckpointEvent::Begin { file_id, checkpoint_sequence_num }) => {
            let transactions = queue.take_pending(file_id);
            if transactions.len() == 0 {
                (CheckpointState::Finished(None), CheckpointAction::Finish(None))
            } else {
                (
                    CheckpointState::Loading { file_id, checkpoint_sequence_num, transactions },
                    CheckpointAction::Download { key: key(file_id, checkpoint_sequence_num) },
                )
            }
        },
        (
            CheckpointState::Loading { file_id, checkpoint_sequence_num: _, transactions },
            CheckpointEvent::Loaded { file },
        ) => {
            proof {
                lemma_in_turn(transactions@, file_id);
            }
            let sorted = sort_transactions(transactions);
            let last_sequence_num = sorted[sorted.len() - 1].sequence_num;
            let outcome = fold_checkpoint(&file, &sorted);
            match outcome {
                Ok(stored) => (
                    CheckpointState::Uploading { file_id, last_sequence_num, transactions: sorted },
                    CheckpointAction::Upload { key: key(file_id, last_sequence_num), file: stored },
                ),
                Err(e) => {
                    let ghost before = *queue;
                    queue.restore_pending(file_id, sorted);
                    let r = (CheckpointState::Failed(e), CheckpointAction::Abort);
                    proof {
                        assert(given_up(
                            before,
                            file_id,
                            in_turn(transactions@),
                            *queue,
                            e,
                            r.0,
                            r.1,
                        ));
                    }
                    r
                },
            }
        },
        (
            CheckpointState::Uploading { file_id, last_sequence_num, transactions },
            CheckpointEvent::Uploaded,
        ) => (
            CheckpointState::Registering { file_id, last_sequence_num, transactions },
            CheckpointAction::SetFileCheckpoint {
                file_id,
                sequence_num: last_sequence_num,
                version: String::from_str(crate::grid::file::CURRENT_VERSION),
                key: key(file_id, last_sequence_num),
            },
        ),
        (
            CheckpointState::Registering { last_sequence_num, .. },
            CheckpointEvent::Registered,
        ) => (
            CheckpointState::Finished(Some(last_sequence_num)),
            CheckpointAction::Finish(Some(last_sequence_num)),
        ),
        (CheckpointState::Loading { file_id, transactions, .. }, event) => {
            queue.restore_pending(file_id, transactions);
            (CheckpointState::Failed(failure_of(&event)), CheckpointAction::Abort)
        },
        (CheckpointState::Uploading { file_id, transactions, .. }, event) => {
            queue.restore_pending(file_id, transactions);
            (CheckpointState::Failed(failure_of(&event)), CheckpointAction::Abort)
        },
        (CheckpointState::Registering { file_id, transactions, .. }, event) => {
            queue.restore_pending(file_id, transactions);
            (CheckpointState::Failed(failure_of(&event)), CheckpointAction::Abort)
        },
        _ => (CheckpointState::Failed(CheckpointError::OutOfTurn), CheckpointAction::Abort),
    }
}

/// The failure that an event stands for where the checkpoint cannot go on
/// with it: that of storage or the registry, or that the event was not
/// waited for.
pub open spec fn out_of_turn(event: CheckpointEvent) -> CheckpointError {
    match event {
        CheckpointEvent::IoFailed => CheckpointError::Io,
        _ => CheckpointError::OutOfTurn,
    }
}

/// The failure that an event stands for where the checkpoint cannot go on
/// with it.
fn failure_of(event: &CheckpointEvent) -> (e: CheckpointError)
    ensures
        e == out_of_turn(*event),
{
    match event {
        CheckpointEvent::IoFailed => CheckpointError::Io,
        _ => CheckpointError::OutOfTurn,
    }
}

/// Why no new checkpoint comes of a file and the transactions: the file
/// cannot be read, with the error of reading it; or an operation cannot be applied to the grid that the
/// operations before it have made of the grid in the file; or the grid that
/// they all make of it holds a number that cannot be written as it is.
pub open spec fn fold_failed(
    file: current::GridSchema,
    transactions: Seq<TransactionServer>,
    e: CheckpointError,
) -> bool {
    match e {
        CheckpointError::File(error) => !importable(file) && refused(file, error),
        CheckpointError::Transaction(error) => importable(file) && exists|
            from: Grid,
            to: Grid,
            k: int,
        |
            {
                &&& imported(file, from)
                &&& 0 <= k < all_operations(transactions).len()
                &&& #[trigger] ops_effect(from, all_operations(transactions).take(k), to)
                &&& op_error(to, all_operations(transactions)[k]) == Some(error)
            },
        CheckpointError::NotStorable => importable(file) && exists|from: Grid, to: Grid|
            #![trigger ops_effect(from, all_operations(transactions), to)]
            imported(file, from) && ops_effect(from, all_operations(transactions), to)
                && !to.numbers_storable(),
        _ => false,
    }
}

/// Applies the transactions to the grid that the file stands for and writes
/// the grid that results.
pub fn fold_checkpoint(file: &current::GridSchema, transactions: &Vec<TransactionServer>) -> (r:
    Result<current::GridSchema, CheckpointError>)
    requires
        served_wf(transactions@),
    ensures
        match r {
            Ok(stored) => importable(stored) && exists|from: Grid, to: Grid|
                #![trigger ops_effect(from, all_operations(transactions@), to)]
                imported(*file, from) && ops_effect(from, all_operations(transactions@), to)
                    && imported(stored, to),
            Err(e) => fold_failed(*file, transactions@, e),
        },
        importable(*file) ==> !(r matches Err(CheckpointError::File(_))),
        !importable(*file) ==> r matches Err(CheckpointError::File(_)),
{
    let mut grid = match import(file) {
        Ok(grid) => grid,
        Err(e) => {
            return Err(CheckpointError::File(e));
        },
    };
    let ghost from = grid;
    match apply_all(&mut grid, transactions) {
        Ok(_) => {},
        Err(e) => {
            return Err(CheckpointError::Transaction(e));
        },
    }
    match try_export(&grid) {
        Some(stored) => {
            assert(imported(*file, from) && ops_effect(from, all_operations(transactions@), grid)
                && imported(stored, grid));
            Ok(stored)
        },
        None => {
            assert(imported(*file, from) && ops_effect(from, all_operations(transactions@), grid)
                && !grid.numbers_storable());
            Err(CheckpointError::NotStorable)
        },
    }
}

} // verus!
