//! The kinds of transactions, as they are named to the user.

use vstd::prelude::*;

verus! {

#[derive(Clone, Copy, Debug, PartialEq, Eq, Hash, Structural)]
pub enum TransactionName {
    Unknown,
    SetCells,
    SetCode,
    SetFormats,
    SetBorders,
    SheetAdd,
    SheetDelete,
    SetSheetMetadata,
    ResizeColumn,
    ResizeRow,
    Validation,
    Undo,
    Redo,
    Multiplayer,
}

} // verus!
