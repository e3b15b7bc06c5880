use quadratic_core::controller::active_transactions::transaction_name::TransactionName;
use quadratic_core::controller::active_transactions::unsaved_transactions::UnsavedTransaction;
use quadratic_core::controller::execution::execute_operation::TransactionError;
use quadratic_core::controller::execution::receive_multiplayer_operations::TransactionSummary;
use quadratic_core::controller::multiplayer::ReceiveError;
use quadratic_core::controller::operations::operation::Operation;
use quadratic_core::controller::transaction::{Transaction, TransactionServer};
use quadratic_core::controller::GridController;
use quadratic_core::grid::file::current::{export, import};
use quadratic_core::grid::file::CURRENT_VERSION;
use quadratic_core::grid::ids::SheetId;
use quadratic_core::grid::Grid;
use quadratic_core::multiplayer::file::{
    apply_all, apply_transaction, checkpoint_step, fold_checkpoint, key, sort_transactions,
    CheckpointAction, CheckpointError, CheckpointEvent, CheckpointState,
};
use quadratic_core::multiplayer::message::request::{MessageRequest, UserStateUpdate};
use quadratic_core::multiplayer::state::transaction_queue::{QueueError, TransactionQueue};
use quadratic_core::pos::Pos;
use quadratic_core::rect::SheetRect;
use quadratic_core::values::array::Array;
use quadratic_core::values::CellValue;

const FILE: u128 = 0xdaf6008f_d858_4a6a_966b_928213048941;

fn text(s: &str) -> CellValue {
    CellValue::Text(s.to_string())
}

fn set(sheet_id: SheetId, x: i64, y: i64, value: &str) -> Operation {
    Operation::SetCellValues {
        sheet_rect: SheetRect::single_pos(Pos { x, y }, sheet_id),
        values: Array::from_cell(text(value)),
    }
}

fn served(id: u128, sequence_num: u64, operations: Vec<Operation>) -> TransactionServer {
    TransactionServer {
        id,
        file_id: FILE,
        sequence_num,
        operations,
    }
}

fn value(gc: &GridController, x: i64, y: i64) -> Option<CellValue> {
    let sheet_id = gc.sheet_ids()[0];
    gc.try_sheet(sheet_id)
        .unwrap()
        .get_cell_value(Pos { x, y })
}

#[test]
fn loads_a_file() {
    let file = Grid::new();

    let sheet_id = SheetId::from_str("d9ea85d6-19e7-48e5-8380-282c1bd5a421").unwrap();
    let operations = vec![Operation::SetCellValues {
        sheet_rect: SheetRect::single_pos(Pos { x: 1, y: 2 }, sheet_id),
        values: Array::from_cell(CellValue::Text("hello".to_string())),
    }];

    let mut server = GridController::from_grid(file, 0);
    server.grid_mut().sheets_mut()[0].id = sheet_id;
    apply_transaction(&mut server, operations).unwrap();
    let sheet = server.grid().try_sheet(sheet_id).unwrap();
    assert_eq!(
        sheet.display_value(Pos { x: 1, y: 2 }),
        Some(CellValue::Text("hello".to_string()))
    );
    assert!(!server.has_undo());
    assert!(server.unsaved_transactions.is_empty());
}

#[test]
fn checkpoints_are_named_by_document_and_sequence_number() {
    assert_eq!(key(FILE, 0), "daf6008f-d858-4a6a-966b-928213048941-0");
    assert_eq!(
        key(FILE, 18446744073709551615),
        "daf6008f-d858-4a6a-966b-928213048941-18446744073709551615"
    );
    assert_eq!(key(0, 7), "00000000-0000-0000-0000-000000000000-7");
}

#[test]
fn the_queue_gives_out_sequence_numbers() {
    let mut queue = TransactionQueue::new();
    assert_eq!(queue.get_pending(FILE), Err(QueueError::UnknownFile(FILE)));
    assert_eq!(queue.get_sequence_num(FILE), Err(QueueError::UnknownFile(FILE)));
    assert_eq!(queue.push_pending(1, FILE, vec![], 10), Ok(11));
    assert_eq!(queue.push_pending(2, FILE, vec![], 0), Ok(12));
    assert_eq!(queue.push_pending(3, 99, vec![], 0), Ok(1));
    assert_eq!(queue.push_pending(4, FILE, vec![], 500), Ok(13));
    assert_eq!(queue.get_sequence_num(FILE), Ok(13));
    assert_eq!(queue.get_sequence_num(99), Ok(1));
    let pending = queue.get_pending(FILE).unwrap();
    assert_eq!(
        pending.iter().map(|t| (t.id, t.sequence_num)).collect::<Vec<_>>(),
        vec![(1, 11), (2, 12), (4, 13)]
    );
    assert_eq!(queue.complete_transactions(FILE), Ok(3));
    assert!(queue.get_pending(FILE).unwrap().is_empty());
    assert_eq!(queue.get_sequence_num(FILE), Ok(13));
    assert_eq!(queue.push_pending(5, FILE, vec![], 0), Ok(14));
    assert_eq!(
        queue.complete_transactions(7),
        Err(QueueError::UnknownFile(7))
    );
    // no number is left after the last one
    let mut full = TransactionQueue::new();
    assert_eq!(
        full.push_pending(1, FILE, vec![], u64::MAX),
        Err(QueueError::SequenceExhausted(FILE))
    );
}

#[test]
fn what_was_taken_can_be_put_back() {
    let mut queue = TransactionQueue::new();
    queue.push_pending(1, FILE, vec![], 0).unwrap();
    queue.push_pending(2, FILE, vec![], 0).unwrap();
    let taken = queue.take_pending(FILE);
    assert_eq!(taken.len(), 2);
    assert!(queue.get_pending(FILE).unwrap().is_empty());
    assert_eq!(queue.push_pending(3, FILE, vec![], 0), Ok(3));
    queue.restore_pending(FILE, taken);
    let pending = queue.get_pending(FILE).unwrap();
    assert_eq!(
        pending.iter().map(|t| t.sequence_num).collect::<Vec<_>>(),
        vec![1, 2, 3]
    );
    assert!(queue.take_pending(12345).is_empty());
}

#[test]
fn transactions_are_replayed_in_the_order_of_their_numbers() {
    let grid = Grid::new();
    let sheet_id = grid.sheets()[0].id;
    let transactions = || {
        vec![
            served(3, 3, vec![set(sheet_id, 0, 0, "third")]),
            served(1, 1, vec![set(sheet_id, 0, 0, "first"), set(sheet_id, 1, 0, "b")]),
            served(2, 2, vec![set(sheet_id, 0, 0, "second")]),
        ]
    };
    let sorted = sort_transactions(transactions());
    assert_eq!(
        sorted.iter().map(|t| t.sequence_num).collect::<Vec<_>>(),
        vec![1, 2, 3]
    );
    let mut other_order = transactions();
    other_order.reverse();
    assert_eq!(sort_transactions(other_order), sorted);

    let mut one = Grid::new();
    one.sheets_mut()[0].id = sheet_id;
    let mut two = Grid::new();
    two.sheets_mut()[0].id = sheet_id;
    apply_all(&mut one, &sorted).unwrap();
    let mut again = transactions();
    again.swap(0, 1);
    apply_all(&mut two, &sort_transactions(again)).unwrap();
    assert_eq!(
        one.sheets()[0].get_cell_value(Pos { x: 0, y: 0 }),
        Some(text("third"))
    );
    assert_eq!(export(&one).sheets[0].columns, export(&two).sheets[0].columns);
}

#[test]
fn a_checkpoint_is_made_step_by_step() {
    let base = Grid::new();
    let sheet_id = base.sheets()[0].id;
    let file = export(&base);
    let mut queue = TransactionQueue::new();
    queue
        .push_pending(1, FILE, vec![set(sheet_id, 0, 0, "a")], 4)
        .unwrap();
    queue
        .push_pending(2, FILE, vec![set(sheet_id, 0, 1, "b")], 4)
        .unwrap();

    let (state, action) = checkpoint_step(
        CheckpointState::Idle,
        CheckpointEvent::Begin {
            file_id: FILE,
            checkpoint_sequence_num: 4,
        },
        &mut queue,
    );
    assert_eq!(
        action,
        CheckpointAction::Download {
            key: "daf6008f-d858-4a6a-966b-928213048941-4".to_string()
        }
    );
    assert!(queue.get_pending(FILE).unwrap().is_empty());
    // a transaction that comes meanwhile waits for the next checkpoint
    assert_eq!(queue.push_pending(3, FILE, vec![], 0), Ok(7));

    let (state, action) = checkpoint_step(state, CheckpointEvent::Loaded { file }, &mut queue);
    let CheckpointAction::Upload { key, file: stored } = action else {
        panic!("expected an upload, got {:?}", action)
    };
    assert_eq!(key, "daf6008f-d858-4a6a-966b-928213048941-6");
    assert_eq!(stored.version, Some(CURRENT_VERSION.to_string()));
    let grid = import(&stored).unwrap();
    assert_eq!(
        grid.sheets()[0].get_cell_value(Pos { x: 0, y: 0 }),
        Some(text("a"))
    );
    assert_eq!(
        grid.sheets()[0].get_cell_value(Pos { x: 0, y: 1 }),
        Some(text("b"))
    );

    let (state, action) = checkpoint_step(state, CheckpointEvent::Uploaded, &mut queue);
    assert_eq!(
        action,
        CheckpointAction::SetFileCheckpoint {
            file_id: FILE,
            sequence_num: 6,
            version: "1.6".to_string(),
            key: "daf6008f-d858-4a6a-966b-928213048941-6".to_string(),
        }
    );
    let (state, action) = checkpoint_step(state, CheckpointEvent::Registered, &mut queue);
    assert_eq!(state, CheckpointState::Finished(Some(6)));
    assert_eq!(action, CheckpointAction::Finish(Some(6)));
    assert_eq!(queue.get_pending(FILE).unwrap().len(), 1);

    // once it has ended, nothing more is waited for
    let (state, action) = checkpoint_step(state, CheckpointEvent::Uploaded, &mut queue);
    assert_eq!(state, CheckpointState::Failed(CheckpointError::OutOfTurn));
    assert_eq!(action, CheckpointAction::Abort);
}

#[test]
fn a_checkpoint_that_fails_puts_the_transactions_back() {
    let base = Grid::new();
    let sheet_id = base.sheets()[0].id;
    let mut queue = TransactionQueue::new();
    queue
        .push_pending(1, FILE, vec![set(sheet_id, 0, 0, "a")], 0)
        .unwrap();
    let begin = || CheckpointEvent::Begin {
        file_id: FILE,
        checkpoint_sequence_num: 0,
    };

    // nothing waits: nothing to do
    let (state, action) = checkpoint_step(
        CheckpointState::Idle,
        CheckpointEvent::Begin {
            file_id: 5,
            checkpoint_sequence_num: 0,
        },
        &mut queue,
    );
    assert_eq!(state, CheckpointState::Finished(None));
    assert_eq!(action, CheckpointAction::Finish(None));

    // fetching fails
    let (state, _) = checkpoint_step(CheckpointState::Idle, begin(), &mut queue);
    queue.push_pending(2, FILE, vec![], 0).unwrap();
    let (state, action) = checkpoint_step(state, CheckpointEvent::IoFailed, &mut queue);
    assert_eq!(state, CheckpointState::Failed(CheckpointError::Io));
    assert_eq!(action, CheckpointAction::Abort);
    assert_eq!(
        queue
            .get_pending(FILE)
            .unwrap()
            .iter()
            .map(|t| t.sequence_num)
            .collect::<Vec<_>>(),
        vec![1, 2]
    );

    // an operation cannot be applied to the checkpoint
    let other = Grid::new();
    let (state, _) = checkpoint_step(CheckpointState::Idle, begin(), &mut queue);
    let (state, action) = checkpoint_step(
        state,
        CheckpointEvent::Loaded {
            file: export(&other),
        },
        &mut queue,
    );
    assert_eq!(
        state,
        CheckpointState::Failed(CheckpointError::Transaction(
            TransactionError::SheetNotFound(sheet_id)
        ))
    );
    assert_eq!(action, CheckpointAction::Abort);
    assert_eq!(queue.get_pending(FILE).unwrap().len(), 2);

    // storing fails
    let (state, _) = checkpoint_step(CheckpointState::Idle, begin(), &mut queue);
    let (state, _) = checkpoint_step(
        state,
        CheckpointEvent::Loaded {
            file: export(&base),
        },
        &mut queue,
    );
    let (state, action) = checkpoint_step(state, CheckpointEvent::IoFailed, &mut queue);
    assert_eq!(state, CheckpointState::Failed(CheckpointError::Io));
    assert_eq!(action, CheckpointAction::Abort);
    assert_eq!(queue.get_pending(FILE).unwrap().len(), 2);

    // the last checkpoint cannot be read
    let mut broken = export(&base);
    broken.sheets[0].id.id = "no id".to_string();
    assert!(matches!(
        fold_checkpoint(&broken, &vec![]),
        Err(CheckpointError::File(_))
    ));
}

#[test]
fn what_is_not_confirmed_is_applied_on_top_of_what_the_server_sends() {
    let mut gc = GridController::new();
    let sheet_id = gc.sheet_ids()[0];
    gc.start_user_transaction(
        vec![set(sheet_id, 0, 0, "mine")],
        None,
        TransactionName::SetCells,
    )
    .unwrap();
    let my_id = gc.unsaved_transactions[0].forward.id;
    assert_eq!(gc.unsaved_transactions[0].reverse.id, my_id);
    assert_eq!(
        gc.unsaved_transactions[0].reverse.operations,
        vec![Operation::SetCellValues {
            sheet_rect: SheetRect::single_pos(Pos { x: 0, y: 0 }, sheet_id),
            values: Array::from_cell(CellValue::Blank),
        }]
    );

    // another user's transaction comes first in the order of the server
    let summary = gc
        .received_transaction(
            77,
            1,
            vec![set(sheet_id, 0, 0, "theirs"), set(sheet_id, 1, 0, "b")],
        )
        .unwrap();
    assert_eq!(
        summary,
        TransactionSummary {
            request_transactions: None,
            applied: 1
        }
    );
    assert_eq!(value(&gc, 0, 0), Some(text("mine")));
    assert_eq!(value(&gc, 1, 0), Some(text("b")));
    assert_eq!(gc.last_sequence_num(), 1);
    assert_eq!(gc.unsaved_transactions.len(), 1);
    assert_eq!(gc.undo_stack.len(), 1);

    // then the server confirms what was made here
    let summary = gc
        .received_transaction(my_id, 2, vec![set(sheet_id, 0, 0, "mine")])
        .unwrap();
    assert_eq!(summary.applied, 1);
    assert_eq!(value(&gc, 0, 0), Some(text("mine")));
    assert_eq!(value(&gc, 1, 0), Some(text("b")));
    assert_eq!(gc.last_sequence_num(), 2);
    assert!(gc.unsaved_transactions.is_empty());

    // what was applied already is passed over
    let summary = gc
        .received_transaction(77, 1, vec![set(sheet_id, 0, 0, "old")])
        .unwrap();
    assert_eq!(
        summary,
        TransactionSummary {
            request_transactions: None,
            applied: 0
        }
    );
    assert_eq!(value(&gc, 0, 0), Some(text("mine")));
    assert_eq!(gc.last_sequence_num(), 2);
}

#[test]
fn transactions_ahead_of_their_turn_wait() {
    let mut gc = GridController::new();
    let sheet_id = gc.sheet_ids()[0];
    let summary = gc
        .received_transaction(3, 3, vec![set(sheet_id, 0, 0, "three")])
        .unwrap();
    assert_eq!(
        summary,
        TransactionSummary {
            request_transactions: Some(1),
            applied: 0
        }
    );
    assert_eq!(value(&gc, 0, 0), None);
    gc.received_transaction(5, 5, vec![set(sheet_id, 0, 0, "five")])
        .unwrap();
    gc.received_transaction(2, 2, vec![set(sheet_id, 0, 0, "two")])
        .unwrap();
    // the same number again is not kept twice
    gc.received_transaction(9, 3, vec![set(sheet_id, 0, 0, "three again")])
        .unwrap();
    assert_eq!(
        gc.out_of_order_later_transactions
            .iter()
            .map(|t| (t.id, t.sequence_num))
            .collect::<Vec<_>>(),
        vec![(2, Some(2)), (3, Some(3)), (5, Some(5))]
    );
    assert_eq!(gc.last_sequence_num(), 0);

    // the missing one comes: it and those that follow it without a gap are applied
    let summary = gc
        .received_transaction(1, 1, vec![set(sheet_id, 1, 1, "one")])
        .unwrap();
    assert_eq!(
        summary,
        TransactionSummary {
            request_transactions: None,
            applied: 3
        }
    );
    assert_eq!(gc.last_sequence_num(), 3);
    assert_eq!(value(&gc, 0, 0), Some(text("three")));
    assert_eq!(value(&gc, 1, 1), Some(text("one")));
    assert_eq!(gc.out_of_order_later_transactions.len(), 1);

    let summary = gc
        .received_transaction(4, 4, vec![set(sheet_id, 2, 2, "four")])
        .unwrap();
    assert_eq!(summary.applied, 2);
    assert_eq!(gc.last_sequence_num(), 5);
    assert_eq!(value(&gc, 0, 0), Some(text("five")));
    assert!(gc.out_of_order_later_transactions.is_empty());
}

#[test]
fn a_list_of_transactions_is_received_in_any_order() {
    let sheet_id = SheetId { id: 1 };
    let list = |order: [u64; 4]| {
        order
            .iter()
            .map(|n| {
                served(
                    *n as u128,
                    *n,
                    vec![
                        set(sheet_id, 0, 0, &format!("value {}", n)),
                        set(sheet_id, *n as i64, 0, "x"),
                    ],
                )
            })
            .collect::<Vec<_>>()
    };
    let mut grids = vec![];
    for order in [[1, 2, 3, 4], [4, 3, 2, 1], [2, 4, 1, 3], [3, 1, 4, 2]] {
        let mut gc = GridController::new();
        gc.grid_mut().sheets_mut()[0].id = sheet_id;
        gc.start_user_transaction(
            vec![set(sheet_id, 9, 9, "local")],
            None,
            TransactionName::SetCells,
        )
        .unwrap();
        let summary = gc.received_transactions(list(order)).unwrap();
        assert_eq!(
            summary,
            TransactionSummary {
                request_transactions: None,
                applied: 4
            }
        );
        assert_eq!(gc.last_sequence_num(), 4);
        assert_eq!(value(&gc, 0, 0), Some(text("value 4")));
        assert_eq!(value(&gc, 9, 9), Some(text("local")));
        assert_eq!(gc.unsaved_transactions.len(), 1);
        grids.push(format!("{:?}", export(gc.grid()).sheets[0].columns));
    }
    assert!(grids.iter().all(|g| *g == grids[0]));

    // with one missing, the rest waits, and the missing ones are asked for
    let mut gc = GridController::new();
    gc.grid_mut().sheets_mut()[0].id = sheet_id;
    let mut partial = list([1, 2, 3, 4]);
    partial.remove(1);
    let summary = gc.received_transactions(partial).unwrap();
    assert_eq!(
        summary,
        TransactionSummary {
            request_transactions: Some(2),
            applied: 1
        }
    );
    assert_eq!(gc.out_of_order_later_transactions.len(), 2);
    assert_eq!(
        gc.received_transactions(vec![]).unwrap(),
        TransactionSummary {
            request_transactions: Some(2),
            applied: 0
        }
    );
}

#[test]
fn the_sequence_number_of_the_server_is_compared() {
    let mut gc = GridController::new();
    gc.set_last_sequence_num(7);
    assert_eq!(
        gc.receive_sequence_num(7),
        TransactionSummary {
            request_transactions: None,
            applied: 0
        }
    );
    assert_eq!(
        gc.receive_sequence_num(9),
        TransactionSummary {
            request_transactions: Some(8),
            applied: 0
        }
    );
    assert_eq!(gc.receive_sequence_num(3).request_transactions, Some(8));
}

#[test]
fn an_operation_of_the_server_that_cannot_be_applied_is_an_error() {
    let mut gc = GridController::new();
    let sheet_id = gc.sheet_ids()[0];
    gc.start_user_transaction(
        vec![set(sheet_id, 0, 0, "mine")],
        None,
        TransactionName::SetCells,
    )
    .unwrap();
    let missing = SheetId { id: 4 };
    let r = gc.received_transaction(1, 1, vec![set(missing, 0, 0, "x")]);
    assert_eq!(r, Err(TransactionError::SheetNotFound(missing)));
    assert_eq!(gc.last_sequence_num(), 0);
    assert_eq!(gc.unsaved_transactions.len(), 1);
    // what was undone before the error stays undone
    assert_eq!(value(&gc, 0, 0), None);

    // the sheet that a waiting transaction changes is deleted by another user
    let mut gc = GridController::new();
    let sheet_id = gc.sheet_ids()[0];
    gc.grid_mut().add_sheet(None);
    gc.start_user_transaction(
        vec![set(sheet_id, 0, 0, "mine")],
        None,
        TransactionName::SetCells,
    )
    .unwrap();
    let r = gc.received_transaction(1, 1, vec![Operation::DeleteSheet { sheet_id }]);
    assert_eq!(r, Err(TransactionError::SheetNotFound(sheet_id)));
}

#[test]
fn ids_come_as_texts() {
    let mut gc = GridController::new();
    let sheet_id = gc.sheet_ids()[0];
    assert_eq!(
        gc.js_multiplayer_transaction("not an id", 1, vec![set(sheet_id, 0, 0, "a")]),
        Err(ReceiveError::InvalidTransactionId)
    );
    assert_eq!(value(&gc, 0, 0), None);
    assert_eq!(
        gc.js_multiplayer_transaction(
            "daf6008f-d858-4a6a-966b-928213048941",
            1,
            vec![set(sheet_id, 0, 0, "a")]
        ),
        Ok(TransactionSummary {
            request_transactions: None,
            applied: 1
        })
    );
    assert_eq!(value(&gc, 0, 0), Some(text("a")));
    assert_eq!(
        gc.js_multiplayer_transaction(
            "daf6008f-d858-4a6a-966b-928213048941",
            2,
            vec![set(SheetId { id: 3 }, 0, 0, "a")]
        ),
        Err(ReceiveError::Transaction(TransactionError::SheetNotFound(
            SheetId { id: 3 }
        )))
    );

    let offline = |sheet_id: SheetId| UnsavedTransaction {
        forward: Transaction {
            id: FILE,
            sequence_num: None,
            operations: vec![set(sheet_id, 5, 5, "offline")],
            cursor: None,
        },
        reverse: Transaction {
            id: FILE,
            sequence_num: None,
            operations: vec![],
            cursor: None,
        },
        sent_to_server: false,
    };
    assert_eq!(
        gc.js_apply_offline_unsaved_transaction("?", offline(sheet_id)),
        Err(ReceiveError::InvalidTransactionId)
    );
    assert_eq!(
        gc.js_apply_offline_unsaved_transaction(
            "daf6008f-d858-4a6a-966b-928213048941",
            offline(sheet_id)
        ),
        Ok(true)
    );
    assert_eq!(value(&gc, 5, 5), Some(text("offline")));
    assert_eq!(gc.unsaved_transactions.len(), 1);
    assert_eq!(gc.unsaved_transactions[0].forward.id, FILE);
    assert!(gc.has_undo());
    // a second time it is known already
    gc.grid_mut().sheets_mut()[0].set_cell_value(Pos { x: 5, y: 5 }, text("changed"));
    assert_eq!(
        gc.js_apply_offline_unsaved_transaction(
            "DAF6008F-D858-4A6A-966B-928213048941",
            offline(sheet_id)
        ),
        Ok(false)
    );
    assert_eq!(value(&gc, 5, 5), Some(text("changed")));
    gc.js_multiplayer_set_sequence_num(12);
    assert_eq!(gc.last_sequence_num(), 12);
}

#[test]
fn messages_name_their_document_and_session() {
    let message = MessageRequest::Transaction {
        id: 1,
        session_id: 2,
        file_id: 3,
        operations: vec![1, 2, 3],
    };
    assert_eq!(message.file_id(), 3);
    assert_eq!(message.session_id(), 2);
    let message = MessageRequest::UserUpdate {
        session_id: 8,
        file_id: 9,
        update: UserStateUpdate {
            sheet_id: None,
            selection: None,
            cell_edit: None,
            x: Some(1),
            y: None,
            visible: None,
            viewport: None,
            follow: None,
        },
    };
    assert_eq!((message.file_id(), message.session_id()), (9, 8));
}

#[test]
fn transactions_are_applied_in_the_order_of_their_numbers_whatever_the_queue_holds() {
    let base = Grid::new();
    let sheet_id = base.sheets()[0].id;
    let mut queue = TransactionQueue::new();
    // the queue holds them out of order
    queue.restore_pending(
        FILE,
        vec![
            served(3, 9, vec![set(sheet_id, 0, 0, "nine")]),
            served(1, 7, vec![set(sheet_id, 0, 0, "seven")]),
            served(2, 8, vec![set(sheet_id, 0, 0, "eight")]),
        ],
    );
    assert!(queue.is_wf());
    let (state, _) = checkpoint_step(
        CheckpointState::Idle,
        CheckpointEvent::Begin {
            file_id: FILE,
            checkpoint_sequence_num: 6,
        },
        &mut queue,
    );
    let (state, action) = checkpoint_step(
        state,
        CheckpointEvent::Loaded {
            file: export(&base),
        },
        &mut queue,
    );
    let CheckpointAction::Upload { key, file } = action else {
        panic!("expected an upload, got {:?}", action)
    };
    assert_eq!(key, "daf6008f-d858-4a6a-966b-928213048941-9");
    assert_eq!(
        import(&file).unwrap().sheets()[0].get_cell_value(Pos { x: 0, y: 0 }),
        Some(text("nine"))
    );
    assert!(queue.get_pending(FILE).unwrap().is_empty());

    // the registry cannot be told: the transactions wait again, in their order
    let (state, _) = checkpoint_step(state, CheckpointEvent::Uploaded, &mut queue);
    queue.push_pending(4, FILE, vec![], 0).unwrap();
    let (state, action) = checkpoint_step(state, CheckpointEvent::IoFailed, &mut queue);
    assert_eq!(state, CheckpointState::Failed(CheckpointError::Io));
    assert_eq!(action, CheckpointAction::Abort);
    assert_eq!(
        queue
            .get_pending(FILE)
            .unwrap()
            .iter()
            .map(|t| t.sequence_num)
            .collect::<Vec<_>>(),
        vec![7, 8, 9, 10]
    );
}

#[test]
fn a_checkpoint_leaves_other_documents_alone() {
    let base = Grid::new();
    let sheet_id = base.sheets()[0].id;
    let mut queue = TransactionQueue::new();
    queue.push_pending(1, 77, vec![], 3).unwrap();
    queue.push_pending(2, FILE, vec![set(sheet_id, 0, 0, "a")], 0).unwrap();
    let before = format!("{:?}", queue);

    // nothing waits for this document: the queue is as it was
    let (state, action) = checkpoint_step(
        CheckpointState::Idle,
        CheckpointEvent::Begin {
            file_id: 5,
            checkpoint_sequence_num: 0,
        },
        &mut queue,
    );
    assert_eq!(state, CheckpointState::Finished(None));
    assert_eq!(action, CheckpointAction::Finish(None));
    assert_eq!(format!("{:?}", queue), before);

    let (state, _) = checkpoint_step(
        CheckpointState::Idle,
        CheckpointEvent::Begin {
            file_id: FILE,
            checkpoint_sequence_num: 0,
        },
        &mut queue,
    );
    let taken = format!("{:?}", queue);
    assert_eq!(queue.get_pending(77).unwrap().len(), 1);
    assert_eq!(queue.get_sequence_num(77), Ok(4));
    let (state, _) = checkpoint_step(
        state,
        CheckpointEvent::Loaded {
            file: export(&base),
        },
        &mut queue,
    );
    assert_eq!(format!("{:?}", queue), taken);
    let (state, _) = checkpoint_step(state, CheckpointEvent::Uploaded, &mut queue);
    let (state, _) = checkpoint_step(state, CheckpointEvent::Registered, &mut queue);
    assert_eq!(state, CheckpointState::Finished(Some(1)));
    assert_eq!(format!("{:?}", queue), taken);
    assert!(queue.get_pending(FILE).unwrap().is_empty());

    // an event that is not waited for gives the transactions back
    queue.push_pending(3, FILE, vec![], 0).unwrap();
    let (state, _) = checkpoint_step(
        CheckpointState::Idle,
        CheckpointEvent::Begin {
            file_id: FILE,
            checkpoint_sequence_num: 1,
        },
        &mut queue,
    );
    let (state, action) = checkpoint_step(state, CheckpointEvent::Registered, &mut queue);
    assert_eq!(state, CheckpointState::Failed(CheckpointError::OutOfTurn));
    assert_eq!(action, CheckpointAction::Abort);
    assert_eq!(queue.get_pending(FILE).unwrap().len(), 1);
}

#[test]
fn an_offline_transaction_that_cannot_be_applied_is_an_error() {
    let mut gc = GridController::new();
    let sheet_id = gc.sheet_ids()[0];
    let missing = SheetId { id: 9 };
    let offline = UnsavedTransaction {
        forward: Transaction {
            id: FILE,
            sequence_num: None,
            operations: vec![set(sheet_id, 0, 0, "kept"), set(missing, 0, 0, "lost")],
            cursor: None,
        },
        reverse: Transaction {
            id: FILE,
            sequence_num: None,
            operations: vec![],
            cursor: None,
        },
        sent_to_server: false,
    };
    assert_eq!(
        gc.js_apply_offline_unsaved_transaction("daf6008f-d858-4a6a-966b-928213048941", offline),
        Err(ReceiveError::Transaction(TransactionError::SheetNotFound(
            missing
        )))
    );
    // what was applied before the error stays, and nothing is filed
    assert_eq!(value(&gc, 0, 0), Some(text("kept")));
    assert!(gc.unsaved_transactions.is_empty());
    assert!(!gc.has_undo());
    assert!(gc.is_ready());
}
