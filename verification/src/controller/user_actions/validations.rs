//! Validations, as a user sets and reads them.

use crate::controller::active_transactions::transaction_name::TransactionName;
use crate::controller::execution::execute_operation::{op_effect, op_error, TransactionError};
use crate::controller::execution::run::{ops_effect, ops_reversed};
use crate::controller::operations::operation::Operation;
use crate::controller::GridController;
use crate::grid::ids::SheetId;
use crate::grid::sheet::validations::validation::Validation;
use crate::grid::sheet::validations::{is_first_for, is_first_validation, no_validation};
use crate::grid::sheets::{is_first_with_id, no_sheet_with_id};
use crate::selection::Selection;
use crate::grid::Grid;
use vstd::prelude::*;

verus! {

impl GridController {
    /// Gets a validation of a sheet based on its id.
    pub fn validation(&self, sheet_id: SheetId, validation_id: u128) -> (r: Option<&Validation>)
        ensures
            match r {
                Some(v) => exists|i: int, k: int|
                    #![trigger is_first_with_id(self.grid.sheets@, sheet_id, i), is_first_validation(self.grid.sheets@[i].validations.validations@, validation_id, k)]
                    is_first_with_id(self.grid.sheets@, sheet_id, i) && is_first_validation(
                        self.grid.sheets@[i].validations.validations@,
                        validation_id,
                        k,
                    ) && *v == self.grid.sheets@[i].validations.validations@[k],
                None => no_sheet_with_id(self.grid.sheets@, sheet_id) || exists|i: int| #[trigger]
                    is_first_with_id(self.grid.sheets@, sheet_id, i) && no_validation(
                        self.grid.sheets@[i].validations.validations@,
                        validation_id,
                    ),
            },
    {
        match self.try_sheet(sheet_id) {
            Some(sheet) => sheet.validations.validation(validation_id),
            None => None,
        }
    }

    /// Gets the first validation made for exactly the given selection, on
    /// the sheet of the selection.
    pub fn validation_selection(&self, selection: Selection) -> (r: Option<&Validation>)
        ensures
            match r {
                Some(v) => exists|i: int, k: int|
                    #![trigger is_first_with_id(self.grid.sheets@, selection.sheet_id, i), is_first_for(self.grid.sheets@[i].validations.validations@, selection, k)]
                    is_first_with_id(self.grid.sheets@, selection.sheet_id, i) && is_first_for(
                        self.grid.sheets@[i].validations.validations@,
                        selection,
                        k,
                    ) && *v == self.grid.sheets@[i].validations.validations@[k],
                None => no_sheet_with_id(self.grid.sheets@, selection.sheet_id) || exists|i: int| #[trigger]
                    is_first_with_id(self.grid.sheets@, selection.sheet_id, i) && forall|j: int|
                        0 <= j < self.grid.sheets@[i].validations.validations@.len() ==> !(
                        #[trigger] self.grid.sheets@[i].validations.validations@[j]).selection.alike(
                            selection,
                        ),
            },
    {
        match self.try_sheet(selection.sheet_id) {
            Some(sheet) => sheet.validations.validation_selection(selection),
            None => None,
        }
    }

    /// Gets the validations for a sheet: none where the sheet does not exist
    /// or has no validations.
    pub fn validations(&self, sheet_id: SheetId) -> (r: Option<&Vec<Validation>>)
        ensures
            match r {
                Some(list) => exists|i: int| #[trigger]
                    is_first_with_id(self.grid.sheets@, sheet_id, i) && *list
                        == self.grid.sheets@[i].validations.validations && list@.len() > 0,
                None => no_sheet_with_id(self.grid.sheets@, sheet_id) || exists|i: int| #[trigger]
                    is_first_with_id(self.grid.sheets@, sheet_id, i)
                        && self.grid.sheets@[i].validations.validations@.len() == 0,
            },
    {
        match self.try_sheet(sheet_id) {
            Some(sheet) => sheet.validations.validations(),
            None => None,
        }
    }

    /// Adds a validation, or replaces the one with the same id, as a
    /// transaction of the user.
    pub fn update_validation(&mut self, validation: Validation, cursor: Option<String>) -> (r:
        Result<(), TransactionError>)
        requires
            old(self).wf(),
        ensures
            final(self).wf(),
            match r {
                Ok(_) => {
                    &&& !no_sheet_with_id(old(self).grid.sheets@, validation.selection.sheet_id)
                    &&& ops_reversed(
                        old(self).grid,
                        seq![Operation::SetValidation { validation }],
                        final(self).undo_stack@.last().operations@.reverse(),
                        final(self).grid,
                    )
                    &&& ops_effect(
                        old(self).grid,
                        seq![Operation::SetValidation { validation }],
                        final(self).grid,
                    )
                    &&& final(self).undo_stack@.len() == old(self).undo_stack@.len() + 1
                    &&& final(self).undo_stack@.drop_last() == old(self).undo_stack@
                    &&& final(self).redo_stack@.len() == 0
                },
                Err(e) => e == TransactionError::SheetNotFound(validation.selection.sheet_id)
                    && no_sheet_with_id(old(self).grid.sheets@, validation.selection.sheet_id)
                    && final(self).grid.sheets@ == old(self).grid.sheets@ && final(self).same_history(*old(self)),
            },
    {
        let mut ops: Vec<Operation> = Vec::new();
        ops.push(Operation::SetValidation { validation });
        let r = self.start_user_transaction(ops, cursor, TransactionName::Validation);
        proof {
            assert(ops@ =~= seq![Operation::SetValidation { validation }]);
            if r is Err {
                assert(ops@.take(0) == Seq::<Operation>::empty());
            } else {
                let mid = choose|mid: Grid|
                    {
                        &&& op_error(mid, ops@.last()) is None
                        &&& #[trigger] op_effect(mid, ops@.last(), self.grid)
                        &&& ops_effect(old(self).grid, ops@.drop_last(), mid)
                    };
                assert(mid.sheets@ == old(self).grid.sheets@);
            }
        }
        r
    }

    /// Removes the validation with the given id from a sheet, as a
    /// transaction of the user.
    pub fn remove_validation(
        &mut self,
        sheet_id: SheetId,
        validation_id: u128,
        cursor: Option<String>,
    ) -> (r: Result<(), TransactionError>)
        requires
            old(self).wf(),
        ensures
            final(self).wf(),
            match r {
                Ok(_) => {
                    &&& !no_sheet_with_id(old(self).grid.sheets@, sheet_id)
                    &&& ops_reversed(
                        old(self).grid,
                        seq![Operation::RemoveValidation { sheet_id, validation_id }],
                        final(self).undo_stack@.last().operations@.reverse(),
                        final(self).grid,
                    )
                    &&& ops_effect(
                        old(self).grid,
                        seq![Operation::RemoveValidation { sheet_id, validation_id }],
                        final(self).grid,
                    )
                    &&& final(self).undo_stack@.len() == old(self).undo_stack@.len() + 1
                    &&& final(self).undo_stack@.drop_last() == old(self).undo_stack@
                    &&& final(self).redo_stack@.len() == 0
                },
                Err(e) => e == TransactionError::SheetNotFound(sheet_id) && no_sheet_with_id(
                    old(self).grid.sheets@,
                    sheet_id,
                ) && final(self).grid.sheets@ == old(self).grid.sheets@ && final(self).same_history(*old(self)),
            },
    {
        let mut ops: Vec<Operation> = Vec::new();
        ops.push(Operation::RemoveValidation { sheet_id, validation_id });
        let r = self.start_user_transaction(ops, cursor, TransactionName::Validation);
        proof {
            assert(ops@ =~= seq![Operation::RemoveValidation { sheet_id, validation_id }]);
            if r is Err {
                assert(ops@.take(0) == Seq::<Operation>::empty());
            } else {
                let mid = choose|mid: Grid|
                    {
                        &&& op_error(mid, ops@.last()) is None
                        &&& #[trigger] op_effect(mid, ops@.last(), self.grid)
                        &&& ops_effect(old(self).grid, ops@.drop_last(), mid)
                    };
                assert(mid.sheets@ == old(self).grid.sheets@);
            }
        }
        r
    }
}

} // verus!
