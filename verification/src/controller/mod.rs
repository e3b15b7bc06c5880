//! The controller of a grid: it applies operations in transactions, keeps
//! what is needed to undo them, and reconciles them with the order that the
//! server gives.

pub mod active_transactions;
pub mod execution;
pub mod multiplayer;
pub mod operations;
pub mod transaction;
pub mod user_actions;

use crate::controller::active_transactions::unsaved_transactions::{
    unsaved_wf, UnsavedTransaction,
};
use crate::controller::operations::operation::is_ops_wf;
use crate::controller::transaction::{
    held_in_order, is_held_in_order, is_transactions_wf, transactions_wf, Transaction,
};
use crate::grid::ids::SheetId;
use crate::grid::sheet::Sheet;
use crate::grid::Grid;
use vstd::prelude::*;

verus! {

/// A grid with its history.
#[derive(Debug, PartialEq, Eq)]
pub struct GridController {
    pub grid: Grid,
    /// The transactions that can be undone, the latest last.
    pub undo_stack: Vec<Transaction>,
    /// The transactions that were undone and can be done again.
    pub redo_stack: Vec<Transaction>,
    /// The transactions made here that the server has not yet confirmed,
    /// oldest first.
    pub unsaved_transactions: Vec<UnsavedTransaction>,
    /// The transactions received ahead of their turn, waiting for the ones
    /// before them.
    pub out_of_order_later_transactions: Vec<Transaction>,
    /// The sequence number of the last transaction that the server confirmed
    /// and that is applied here.
    pub last_sequence_num: u64,
}

impl GridController {
    pub open spec fn wf(self) -> bool {
        self.grid.wf()
    }

    /// Every operation that the history keeps is well formed.
    pub open spec fn history_wf(self) -> bool {
        &&& transactions_wf(self.undo_stack@)
        &&& transactions_wf(self.redo_stack@)
        &&& unsaved_wf(self.unsaved_transactions@)
        &&& transactions_wf(self.out_of_order_later_transactions@)
    }

    /// The transactions received ahead of their turn are kept in the order
    /// of their sequence numbers, and none of them is the next to apply.
    pub open spec fn held_wf(self) -> bool {
        held_in_order(self.out_of_order_later_transactions@, self.last_sequence_num)
    }

    /// Whether the controller is in the state that dealing with a message
    /// of the server asks for: the grid and every operation kept in the
    /// history are well formed, and the transactions received ahead of their
    /// turn are in order.
    pub fn is_ready(&self) -> (b: bool)
        ensures
            b == (self.wf() && self.history_wf() && self.held_wf()),
    {
        if !self.grid.is_wf() {
            return false;
        }
        if !is_transactions_wf(&self.undo_stack) || !is_transactions_wf(&self.redo_stack)
            || !is_transactions_wf(&self.out_of_order_later_transactions) {
            return false;
        }
        let mut i: usize = 0;
        while i < self.unsaved_transactions.len()
            invariant
                i <= self.unsaved_transactions@.len(),
                forall|k: int| 0 <= k < i ==> (#[trigger] self.unsaved_transactions@[k]).wf(),
            decreases self.unsaved_transactions.len() - i,
        {
            if !is_ops_wf(&self.unsaved_transactions[i].forward.operations) || !is_ops_wf(
                &self.unsaved_transactions[i].reverse.operations,
            ) {
                return false;
            }
            i += 1;
        }
        is_held_in_order(&self.out_of_order_later_transactions, self.last_sequence_num)
    }

    /// A controller of a new grid: one empty sheet, named `Sheet 1`, with
    /// the first order key and a random id. Nothing can be undone or redone,
    /// nothing waits, and no transaction of the server is applied yet.
    pub fn new() -> (gc: GridController)
        ensures
            gc.wf(),
            gc.grid.is_new(),
            gc.grid.sorted(),
            gc.grid.names_unique(),
            gc.grid.ids_unique(),
            gc.grid.sheets@.len() == 1,
            gc.undo_stack@.len() == 0,
            gc.redo_stack@.len() == 0,
            gc.unsaved_transactions@.len() == 0,
            gc.out_of_order_later_transactions@.len() == 0,
            gc.last_sequence_num == 0,
            gc.history_wf(),
            gc.held_wf(),
    {
        GridController::from_grid(Grid::new(), 0)
    }

    /// A controller of a grid whose last applied transaction had the given
    /// sequence number.
    pub fn from_grid(grid: Grid, last_sequence_num: u64) -> (gc: GridController)
        ensures
            gc.grid == grid,
            gc.undo_stack@.len() == 0,
            gc.redo_stack@.len() == 0,
            gc.unsaved_transactions@.len() == 0,
            gc.out_of_order_later_transactions@.len() == 0,
            gc.last_sequence_num == last_sequence_num,
            gc.history_wf(),
            gc.held_wf(),
    {
        GridController {
            grid,
            undo_stack: Vec::new(),
            redo_stack: Vec::new(),
            unsaved_transactions: Vec::new(),
            out_of_order_later_transactions: Vec::new(),
            last_sequence_num,
        }
    }

    pub fn grid(&self) -> (r: &Grid)
        ensures
            *r == self.grid,
    {
        &self.grid
    }

    pub fn grid_mut(&mut self) -> (r: &mut Grid)
        ensures
            *r == old(self).grid,
            final(self).grid == *final(r),
            final(self).undo_stack == old(self).undo_stack,
            final(self).redo_stack == old(self).redo_stack,
            final(self).unsaved_transactions == old(self).unsaved_transactions,
            final(self).out_of_order_later_transactions == old(self).out_of_order_later_transactions,
            final(self).last_sequence_num == old(self).last_sequence_num,
    {
        &mut self.grid
    }

    /// The ids of the sheets, in the order of the sheets.
    pub fn sheet_ids(&self) -> (ids: Vec<SheetId>)
        ensures
            ids@.len() == self.grid.sheets@.len(),
            forall|i: int| 0 <= i < ids@.len() ==> #[trigger] ids@[i] == self.grid.sheets@[i].id,
    {
        self.grid.sheet_ids()
    }

    /// The first sheet with the given id.
    pub fn try_sheet(&self, sheet_id: SheetId) -> (r: Option<&Sheet>)
        ensures
            match r {
                Some(sheet) => exists|i: int| #[trigger]
                    crate::grid::sheets::is_first_with_id(self.grid.sheets@, sheet_id, i) && *sheet
                        == self.grid.sheets@[i],
                None => crate::grid::sheets::no_sheet_with_id(self.grid.sheets@, sheet_id),
            },
    {
        self.grid.try_sheet(sheet_id)
    }
}

} // verus!
