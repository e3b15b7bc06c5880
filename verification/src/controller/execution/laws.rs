//! Undoing an operation restores the grid.

use crate::controller::execution::execute_operation::execute_set_cell_formats::{
    formats_kept, formats_set, index_in, lemma_index_in_range, rect_holds,
};
use crate::controller::execution::execute_operation::execute_set_cell_values::{
    held, rect_fits, value_of, values_kept, values_set,
};
use crate::controller::active_transactions::pending_transaction::PendingTransaction;
use crate::controller::execution::execute_operation::{
    executed, lemma_sheet_index, op_applied, op_effect, op_error, op_reverses, shape_error,
    sheet_added, sheet_effect, sheet_index, sheet_reverse, TransactionError,
};
use crate::controller::operations::operation::Operation;
use crate::grid::code::{CodeRun, CodeRunResult};
use crate::grid::formatting::{CellFormat, FormatModel};
use crate::grid::offsets::{entry_of, with_entry};
use crate::grid::sheet::validations::validation::Validation;
use crate::grid::sheet::validations::{validation_at, validations_alike};
use crate::grid::sheet::{runs_alike, Sheet};
use crate::grid::sheets::{is_first_with_id, no_sheet_with_id, sheet_le};
use crate::order::{insert_sorted, is_sorted, sorted_seq, text_le};
use crate::grid::Grid;
use crate::pos::Pos;
use crate::values::array::Value;
use crate::values::CellValue;
use vstd::prelude::*;

verus! {

/// A value is like itself.
pub proof fn lemma_value_alike_refl(value: Value)
    ensures
        value.alike(value),
{
}

/// A code run is like itself.
pub proof fn lemma_run_alike_refl(run: CodeRun)
    ensures
        run.alike(run),
{
    match run.result {
        CodeRunResult::Output(v) => {
            lemma_value_alike_refl(v);
        },
        _ => {},
    }
}

/// A validation is like itself.
pub proof fn lemma_validation_alike_refl(validation: Validation)
    ensures
        validation.alike(validation),
{
}

/// A sheet shows the same as itself.
pub proof fn lemma_same_content_refl(sheet: Sheet)
    ensures
        sheet.same_content(sheet),
{
    assert forall|p: Pos| runs_alike(#[trigger] sheet.code_run_at(p), sheet.code_run_at(p)) by {
        match sheet.code_run_at(p) {
            Some(run) => {
                lemma_run_alike_refl(run);
            },
            None => {},
        }
    }
    assert forall|id: u128|
        validations_alike(#[trigger] sheet.validations.by_id(id), sheet.validations.by_id(id)) by {
        match sheet.validations.by_id(id) {
            Some(v) => {
                lemma_validation_alike_refl(v);
            },
            None => {},
        }
    }
}

/// Sheets that differ only in what they hold apart from cells, formatting,
/// code runs, sizes, borders and validations show the same where those are
/// the same.
proof fn lemma_same_content_from_parts(a: Sheet, b: Sheet)
    requires
        a.id == b.id,
        a.name@ == b.name@,
        crate::grid::formatting::opt_text(a.color) == crate::grid::formatting::opt_text(b.color),
        a.order@ == b.order@,
        forall|p: Pos| #[trigger] a.cell(p) == b.cell(p),
        forall|p: Pos| #[trigger] a.format_model(p) == b.format_model(p),
        forall|p: Pos| runs_alike(#[trigger] a.code_run_at(p), b.code_run_at(p)),
        a.offsets.column_widths@ =~= b.offsets.column_widths@,
        a.offsets.row_heights@ =~= b.offsets.row_heights@,
        a.borders@ == b.borders@,
        forall|id: u128| validations_alike(#[trigger] a.validations.by_id(id), b.validations.by_id(id)),
    ensures
        a.same_content(b),
{
}

/// Changing an attribute and then giving it back the value that it had
/// leaves the formatting as it was.
pub proof fn lemma_format_restored(model: FormatModel, change: CellFormat, previous: CellFormat)
    requires
        previous.same_attribute(change),
        model.agrees(previous),
    ensures
        model.with(change).with(previous) == model,
{
}

/// What is found under an id has that id.
pub proof fn lemma_validation_at_id(list: Seq<Validation>, id: u128)
    ensures
        validation_at(list, id) matches Some(v) ==> v.id == id,
{
}

/// Undoing an operation on a single sheet restores the sheet: `after`, the
/// sheet after the operation and then the operation that undoes it, shows
/// the same as `before`.
pub proof fn lemma_sheet_undo(
    before: Sheet,
    op: Operation,
    mid: Sheet,
    reverse: Operation,
    after: Sheet,
)
    requires
        before.wf(),
        !shape_error(op),
        sheet_effect(before, op, mid),
        sheet_reverse(before, op, reverse),
        sheet_effect(mid, reverse, after),
    ensures
        after.same_content(before),
{
    lemma_same_content_refl(before);
    match op {
        Operation::SetCellValues { sheet_rect, values } => {
            let rect = sheet_rect.spec_rect();
            let old_values = reverse->SetCellValues_values;
            assert forall|p: Pos| #[trigger] after.cell(p) == before.cell(p) by {
                if rect.spec_contains(p) {
                    let dx = p.x - rect.min.x;
                    let dy = p.y - rect.min.y;
                    assert(old_values.cell(dx, dy) == value_of(
                        before.cell(Pos { x: (rect.min.x + dx) as i64, y: (rect.min.y + dy) as i64 }),
                    ));
                    if before.cell(p) is Some {
                        assert(before.columns@[p.x].wf());
                        assert(before.columns@[p.x].values@.contains_key(p.y));
                    }
                } else {
                    assert(mid.cell(p) == before.cell(p));
                }
            }
            assert forall|p: Pos| #[trigger] after.format_model(p) == before.format_model(p) by {
                assert(mid.format_model(p) == before.format_model(p));
            }
            lemma_same_content_from_parts(after, before);
        },
        Operation::SetCellFormats { sheet_rect, formats } => {
            let rect = sheet_rect.spec_rect();
            let previous = reverse->SetCellFormats_formats;
            assert forall|p: Pos| #[trigger] after.format_model(p) == before.format_model(p) by {
                if rect.spec_contains(p) {
                    lemma_index_in_range(rect, p);
                    let i = index_in(rect, p);
                    assert(previous@[i].same_attribute(formats@[i]));
                    lemma_format_restored(before.format_model(p), formats@[i], previous@[i]);
                    assert(mid.format_model(p) == before.format_model(p).with(formats@[i]));
                } else {
                    assert(mid.format_model(p) == before.format_model(p));
                }
            }
            assert forall|p: Pos| #[trigger] after.cell(p) == before.cell(p) by {
                assert(mid.cell(p) == before.cell(p));
            }
            lemma_same_content_from_parts(after, before);
        },
        Operation::SetCodeCell { sheet_pos, code_cell_value } => {
            let pos = sheet_pos.spec_pos();
            assert forall|p: Pos|
                runs_alike(#[trigger] after.code_run_at(p), before.code_run_at(p)) by {
                if p != pos {
                    assert(after.code_run_at(p) == mid.code_run_at(p));
                    assert(mid.code_run_at(p) == before.code_run_at(p));
                    match before.code_run_at(p) {
                        Some(run) => {
                            lemma_run_alike_refl(run);
                        },
                        None => {},
                    }
                }
            }
            assert forall|p: Pos| #[trigger] after.cell(p) == before.cell(p) by {}
            assert forall|p: Pos| #[trigger] after.format_model(p) == before.format_model(p) by {}
            lemma_same_content_from_parts(after, before);
        },
        Operation::ResizeColumn { sheet_id, column, new_size } => {
            assert(after.offsets.column_widths@ =~= before.offsets.column_widths@);
            assert forall|p: Pos| #[trigger] after.cell(p) == before.cell(p) by {}
            assert forall|p: Pos| #[trigger] after.format_model(p) == before.format_model(p) by {}
            lemma_same_content_from_parts(after, before);
        },
        Operation::ResizeRow { sheet_id, row, new_size } => {
            assert(after.offsets.row_heights@ =~= before.offsets.row_heights@);
            assert forall|p: Pos| #[trigger] after.cell(p) == before.cell(p) by {}
            assert forall|p: Pos| #[trigger] after.format_model(p) == before.format_model(p) by {}
            lemma_same_content_from_parts(after, before);
        },
        Operation::SetBorders { sheet_id, borders } => {
            assert forall|p: Pos| #[trigger] after.cell(p) == before.cell(p) by {}
            assert forall|p: Pos| #[trigger] after.format_model(p) == before.format_model(p) by {}
            lemma_same_content_from_parts(after, before);
        },
        Operation::SetValidation { validation } => {
            lemma_validation_at_id(before.validations.validations@, validation.id);
            assert forall|id: u128|
                validations_alike(
                    #[trigger] after.validations.by_id(id),
                    before.validations.by_id(id),
                ) by {
                if id != validation.id {
                    assert(after.validations.by_id(id) == mid.validations.by_id(id));
                    assert(mid.validations.by_id(id) == before.validations.by_id(id));
                    match before.validations.by_id(id) {
                        Some(v) => {
                            lemma_validation_alike_refl(v);
                        },
                        None => {},
                    }
                }
            }
            assert forall|p: Pos| #[trigger] after.cell(p) == before.cell(p) by {}
            assert forall|p: Pos| #[trigger] after.format_model(p) == before.format_model(p) by {}
            lemma_same_content_from_parts(after, before);
        },
        Operation::RemoveValidation { sheet_id, validation_id } => {
            lemma_validation_at_id(before.validations.validations@, validation_id);
            assert forall|id: u128|
                validations_alike(
                    #[trigger] after.validations.by_id(id),
                    before.validations.by_id(id),
                ) by {
                if id != validation_id {
                    assert(after.validations.by_id(id) == mid.validations.by_id(id));
                    assert(mid.validations.by_id(id) == before.validations.by_id(id));
                    match before.validations.by_id(id) {
                        Some(v) => {
                            lemma_validation_alike_refl(v);
                        },
                        None => {},
                    }
                }
            }
            assert forall|p: Pos| #[trigger] after.cell(p) == before.cell(p) by {}
            assert forall|p: Pos| #[trigger] after.format_model(p) == before.format_model(p) by {}
            lemma_same_content_from_parts(after, before);
        },
        _ => {},
    }
}

/// Among the first `n` sheets, either none has the id, or one is the first
/// that has it.
proof fn lemma_first_among(sheets: Seq<Sheet>, id: crate::grid::ids::SheetId, n: int)
    requires
        0 <= n <= sheets.len(),
    ensures
        (forall|j: int| 0 <= j < n ==> (#[trigger] sheets[j]).id != id) || exists|i: int|
            0 <= i < n && #[trigger] is_first_with_id(sheets, id, i),
    decreases n,
{
    if n > 0 {
        lemma_first_among(sheets, id, n - 1);
        if forall|j: int| 0 <= j < n - 1 ==> (#[trigger] sheets[j]).id != id {
            if sheets[n - 1].id == id {
                assert(is_first_with_id(sheets, id, n - 1));
            }
        } else {
            let i = choose|i: int| 0 <= i < n - 1 && #[trigger] is_first_with_id(sheets, id, i);
            assert(0 <= i < n && is_first_with_id(sheets, id, i));
        }
    }
}

/// Where a sheet has the id, the place of the first such sheet is well
/// defined.
pub proof fn lemma_sheet_index_exists(sheets: Seq<Sheet>, id: crate::grid::ids::SheetId)
    requires
        !no_sheet_with_id(sheets, id),
    ensures
        is_first_with_id(sheets, id, sheet_index(sheets, id)),
{
    lemma_first_among(sheets, id, sheets.len() as int);
}

/// Where a sheet lands among sheets in strict order of their keys, when its
/// key is that of the sheet that stood at place `i`: at place `i`.
proof fn lemma_lands_at(all: Seq<Sheet>, i: int, sheet: Sheet)
    requires
        0 <= i < all.len(),
        sheet.order@ == all[i].order@,
        forall|a: int, b: int|
            0 <= a < b < all.len() ==> text_le(
                (#[trigger] all[a]).order@,
                (#[trigger] all[b]).order@,
            ) && all[a].order@ != all[b].order@,
    ensures
        sorted_seq(all.remove(i).push(sheet), sheet_le()) == all.remove(i).insert(i, sheet),
{
    let rest = all.remove(i);
    assert forall|a: int, b: int| 0 <= a < b < rest.len() implies sheet_le()(
        #[trigger] rest[a],
        #[trigger] rest[b],
    ) by {
        let a0 = if a < i {
            a
        } else {
            a + 1
        };
        let b0 = if b < i {
            b
        } else {
            b + 1
        };
        assert(rest[a] == all[a0] && rest[b] == all[b0]);
        assert(text_le(all[a0].order@, all[b0].order@));
    }
    crate::order::lemma_sorted_seq_fixed(rest, sheet_le());
    assert(rest.push(sheet).drop_last() == rest);
    if i > 0 {
        assert(rest[i - 1] == all[i - 1]);
        assert(text_le(all[i - 1].order@, all[i].order@));
    }
    assert forall|j: int| i <= j < rest.len() implies !sheet_le()(#[trigger] rest[j], sheet) by {
        assert(rest[j] == all[j + 1]);
        assert(text_le(all[i].order@, all[j + 1].order@) && all[i].order@ != all[j + 1].order@);
        if sheet_le()(rest[j], sheet) {
            crate::order::lemma_text_antisym(all[i].order@, all[j + 1].order@);
        }
    }
    crate::order::lemma_insert_at(rest, sheet, sheet_le(), i);
}

/// Where a sheet lands among sorted sheets: somewhere, the others staying in
/// their order around it.
proof fn lemma_lands_somewhere(all: Seq<Sheet>, sheet: Sheet) -> (k: int)
    requires
        is_sorted(all, sheet_le()),
    ensures
        0 <= k <= all.len(),
        insert_sorted(all, sheet, sheet_le()) == all.insert(k, sheet),
    decreases all.len(),
{
    if all.len() == 0 {
        assert(all.insert(0, sheet) == seq![sheet]);
        0
    } else if sheet_le()(all.last(), sheet) {
        assert(all.insert(all.len() as int, sheet) == all.push(sheet));
        all.len() as int
    } else {
        let head = all.drop_last();
        assert forall|a: int, b: int| 0 <= a < b < head.len() implies sheet_le()(
            #[trigger] head[a],
            #[trigger] head[b],
        ) by {
            assert(head[a] == all[a] && head[b] == all[b]);
        }
        let k = lemma_lands_somewhere(head, sheet);
        assert(head.insert(k, sheet).push(all.last()) == all.insert(k, sheet));
        k
    }
}

/// The first free name for a name that no sheet has is that name.
proof fn lemma_free_name_is_base(sheets: Seq<Sheet>, base: Seq<char>, name: Seq<char>)
    requires
        !crate::grid::sheets::name_taken(sheets, base),
        crate::grid::sheets::is_free_name(sheets, base, name),
    ensures
        name == base,
{
    let k = choose|k: nat|
        {
            &&& #[trigger] crate::grid::sheets::candidate_name(base, k) == name
            &&& !crate::grid::sheets::name_taken(sheets, name)
            &&& forall|j: nat|
                j < k ==> crate::grid::sheets::name_taken(
                    sheets,
                    #[trigger] crate::grid::sheets::candidate_name(base, j),
                )
        };
    if k > 0 {
        assert(crate::grid::sheets::name_taken(
            sheets,
            crate::grid::sheets::candidate_name(base, 0),
        ));
    }
}

/// Replacing an element changes the multiset by that one element.
proof fn lemma_update_multiset(s: Seq<Sheet>, i: int, e: Sheet)
    requires
        0 <= i < s.len(),
    ensures
        s.update(i, e).to_multiset() =~= s.to_multiset().remove(s[i]).insert(e),
{
    broadcast use vstd::seq_lib::group_to_multiset_ensures;
    broadcast use vstd::multiset::group_multiset_axioms;

    let u = s.update(i, e);
    vstd::seq_lib::to_multiset_remove(s, i);
    vstd::seq_lib::to_multiset_remove(u, i);
    assert(u.remove(i) =~= s.remove(i));
    assert(s.to_multiset().count(s[i]) > 0) by {
        assert(s.contains(s[i]));
        vstd::seq_lib::to_multiset_contains(s, s[i]);
    }
    assert(u.to_multiset().count(e) > 0) by {
        assert(u[i] == e);
        assert(u.contains(e));
        vstd::seq_lib::to_multiset_contains(u, e);
    }
    assert(u.remove(i).to_multiset() =~= u.to_multiset().remove(e));
    assert(s.remove(i).to_multiset() =~= s.to_multiset().remove(s[i]));
    assert(u.to_multiset() =~= u.to_multiset().remove(e).insert(e));
}

/// The operation that undoes an operation can be applied to the grid that
/// the operation has made: the sheet that it names is there, and what it
/// carries fits.
pub proof fn lemma_reverse_applies(before: Grid, op: Operation, mid: Grid, reverse: Operation)
    requires
        before.wf(),
        op_error(before, op) is None,
        op_effect(before, op, mid),
        op_reverses(before, op, mid, reverse),
    ensures
        op_error(mid, reverse) is None,
{
    let b = before.sheets@;
    let m = mid.sheets@;
    match op {
        Operation::AddSheet { sheet } => {
            let k = choose|k: int|
                {
                    &&& 0 <= k < m.len()
                    &&& m == sorted_seq(b.push(#[trigger] m[k]), sheet_le())
                    &&& m[k].id == sheet.id
                    &&& m[k].order == sheet.order
                    &&& crate::grid::sheets::is_free_name(b, sheet.name@, m[k].name@)
                    &&& (Sheet { name: sheet.name, ..m[k] }).same_content(sheet)
                };
            assert(m[k].id == sheet.id);
        },
        Operation::DeleteSheet { sheet_id } => {},
        Operation::ReorderSheet { target, order } => {
            lemma_sheet_index_exists(b, target);
            let i = sheet_index(b, target);
            let moved = Sheet { order, ..b[i] };
            let changed = b.update(i, moved);
            crate::grid::sheets::lemma_sheet_le_total();
            crate::order::lemma_sorted_seq(changed, sheet_le());
            assert(changed[i] == moved);
            assert(changed.contains(moved));
            assert(m.contains(moved));
            let j = choose|j: int| 0 <= j < m.len() && m[j] == moved;
            assert(m[j].id == target);
        },
        _ => {
            let id = op.target()->0;
            lemma_sheet_index_exists(b, id);
            let i = sheet_index(b, id);
            assert(b[i].wf());
            lemma_reverse_shape(b[i], op, reverse);
            lemma_effect_keeps_id(b[i], op, m[i]);
            assert(m[i].id == id);
        },
    }
}

/// Applying an operation and then the operation that it returned to undo
/// it succeeds, and gives a grid that shows the same as the grid before:
/// this follows from what applying an operation promises alone. The grid
/// must be in order: no two sheets with the same id, name or order key; and
/// a sheet that is added must come with an id that no sheet has.
pub proof fn lemma_applied_and_undone(
    before: Grid,
    op: Operation,
    mid: Grid,
    reverse: Operation,
    after: Grid,
    undone: Result<Operation, TransactionError>,
)
    requires
        before.wf(),
        before.ids_unique(),
        before.names_unique(),
        before.strictly_sorted(),
        op matches Operation::AddSheet { sheet } ==> no_sheet_with_id(before.sheets@, sheet.id),
        op_applied(before, op, mid, Ok(reverse)),
        op_applied(mid, reverse, after, undone),
    ensures
        undone is Ok,
        after.same_content(before),
{
    lemma_reverse_applies(before, op, mid, reverse);
    lemma_undo_identity(before, op, mid, reverse, after);
}

/// Executing an operation of a transaction, and then executing the
/// operation that was recorded to undo it as the next operation of another
/// transaction, succeeds and gives a grid that shows the same as the grid
/// before: this follows from what executing an operation promises alone. The
/// grid must be in order: no two sheets with the same id, name or order key;
/// and a sheet that is added must come with an id that no sheet has.
pub proof fn lemma_executed_and_undone(
    before: Grid,
    transaction: PendingTransaction,
    mid: Grid,
    recorded: PendingTransaction,
    done: Result<(), TransactionError>,
    undoing: PendingTransaction,
    after: Grid,
    undone_record: PendingTransaction,
    undone: Result<(), TransactionError>,
)
    requires
        before.wf(),
        before.ids_unique(),
        before.names_unique(),
        before.strictly_sorted(),
        transaction.operations@.len() > 0,
        transaction.operations@[0] matches Operation::AddSheet { sheet } ==> no_sheet_with_id(
            before.sheets@,
            sheet.id,
        ),
        executed(before, transaction, mid, recorded, done),
        done is Ok,
        undoing.operations@.len() > 0,
        undoing.operations@[0] == recorded.reverse_operations@.last(),
        executed(mid, undoing, after, undone_record, undone),
    ensures
        undone is Ok,
        after.same_content(before),
{
    let op = transaction.operations@[0];
    let reverse = recorded.reverse_operations@.last();
    lemma_reverse_applies(before, op, mid, reverse);
    lemma_undo_identity(before, op, mid, reverse, after);
}

/// Applying an operation to a grid and then the
/// operation that undoes it gives a grid that shows the same as the grid
/// before, and the operation that undoes can be applied. The grid must be in
/// order: no two sheets with the same id, name or order key; and a sheet that
/// is added must come with an id that no sheet has.
pub proof fn lemma_undo_identity(
    before: Grid,
    op: Operation,
    mid: Grid,
    reverse: Operation,
    after: Grid,
)
    requires
        before.wf(),
        before.ids_unique(),
        before.names_unique(),
        before.strictly_sorted(),
        op matches Operation::AddSheet { sheet } ==> no_sheet_with_id(before.sheets@, sheet.id),
        op_error(before, op) is None,
        op_effect(before, op, mid),
        op_reverses(before, op, mid, reverse),
        op_effect(mid, reverse, after),
    ensures
        op_error(mid, reverse) is None,
        after.same_content(before),
{
    let b = before.sheets@;
    let m = mid.sheets@;
    let a = after.sheets@;
    assert(is_sorted(b, sheet_le()));
    match op {
        Operation::AddSheet { sheet } => {
            let k = choose|k: int|
                {
                    &&& 0 <= k < m.len()
                    &&& m == sorted_seq(b.push(#[trigger] m[k]), sheet_le())
                    &&& m[k].id == sheet.id
                    &&& m[k].order == sheet.order
                    &&& crate::grid::sheets::is_free_name(b, sheet.name@, m[k].name@)
                    &&& (Sheet { name: sheet.name, ..m[k] }).same_content(sheet)
                };
            let added = m[k];
            crate::order::lemma_sorted_seq_fixed(b, sheet_le());
            assert(b.push(added).drop_last() == b);
            let at = lemma_lands_somewhere(b, added);
            assert(m == b.insert(at, added));
            assert(is_first_with_id(m, sheet.id, at)) by {
                assert(m[at] == added);
                assert forall|j: int| 0 <= j < at implies (#[trigger] m[j]).id != sheet.id by {
                    assert(m[j] == b[j]);
                }
            }
            lemma_sheet_index(m, sheet.id, at);
            assert(a =~= b) by {
                assert(m.remove(at) =~= b);
            }
            assert forall|i: int| 0 <= i < a.len() implies (#[trigger] a[i]).same_content(b[i]) by {
                lemma_same_content_refl(b[i]);
            }
        },
        Operation::DeleteSheet { sheet_id } => {
            lemma_sheet_index_exists(b, sheet_id);
            let i = sheet_index(b, sheet_id);
            let removed = b[i];
            assert(is_first_with_id(b, sheet_id, i));
            assert(m == b.remove(i));
            let k = choose|k: int|
                {
                    &&& 0 <= k < a.len()
                    &&& a == sorted_seq(m.push(#[trigger] a[k]), sheet_le())
                    &&& a[k].id == removed.id
                    &&& a[k].order == removed.order
                    &&& crate::grid::sheets::is_free_name(m, removed.name@, a[k].name@)
                    &&& (Sheet { name: removed.name, ..a[k] }).same_content(removed)
                };
            let back = a[k];
            assert(!crate::grid::sheets::name_taken(m, removed.name@)) by {
                if crate::grid::sheets::name_taken(m, removed.name@) {
                    let j = choose|j: int| 0 <= j < m.len() && (#[trigger] m[j]).name@ == removed.name@;
                    let j0 = if j < i {
                        j
                    } else {
                        j + 1
                    };
                    assert(m[j] == b[j0]);
                    if j0 < i {
                        assert(b[j0].name@ != b[i].name@);
                    } else {
                        assert(b[i].name@ != b[j0].name@);
                    }
                }
            }
            lemma_free_name_is_base(m, removed.name@, back.name@);
            lemma_lands_at(b, i, back);
            assert(a == m.insert(i, back));
            assert forall|j: int| 0 <= j < a.len() implies (#[trigger] a[j]).same_content(b[j]) by {
                if j == i {
                    assert(a[j] == back);
                    let renamed = Sheet { name: removed.name, ..back };
                    assert(renamed.same_content(removed));
                    assert forall|p: Pos| #[trigger] back.cell(p) == removed.cell(p) by {
                        assert(renamed.cell(p) == removed.cell(p));
                    }
                    assert forall|p: Pos| #[trigger] back.format_model(p) == removed.format_model(
                        p,
                    ) by {
                        assert(renamed.format_model(p) == removed.format_model(p));
                    }
                    assert forall|p: Pos|
                        runs_alike(#[trigger] back.code_run_at(p), removed.code_run_at(p)) by {
                        assert(runs_alike(renamed.code_run_at(p), removed.code_run_at(p)));
                    }
                    assert forall|id: u128|
                        validations_alike(
                            #[trigger] back.validations.by_id(id),
                            removed.validations.by_id(id),
                        ) by {
                        assert(validations_alike(
                            renamed.validations.by_id(id),
                            removed.validations.by_id(id),
                        ));
                    }
                    lemma_same_content_from_parts(back, removed);
                } else {
                    if j < i {
                        assert(a[j] == b[j]);
                    } else {
                        assert(a[j] == m[j - 1]);
                        assert(m[j - 1] == b[j]);
                    }
                    lemma_same_content_refl(b[j]);
                }
            }
        },
        Operation::ReorderSheet { target, order } => {
            broadcast use vstd::seq_lib::group_to_multiset_ensures;
            broadcast use vstd::multiset::group_multiset_axioms;

            lemma_sheet_index_exists(b, target);
            let i = sheet_index(b, target);
            assert(is_first_with_id(b, target, i));
            let moved = Sheet { order, ..b[i] };
            let changed = b.update(i, moved);
            assert(m == sorted_seq(changed, sheet_le()));
            crate::grid::sheets::lemma_sheet_le_total();
            crate::order::lemma_sorted_seq(changed, sheet_le());
            assert(changed.contains(moved)) by {
                assert(changed[i] == moved);
            }
            assert(m.contains(moved));
            let j = choose|j: int| 0 <= j < m.len() && m[j] == moved;
            assert forall|x: int| 0 <= x < m.len() && x != j implies (#[trigger] m[x]).id
                != target by {
                assert(m.contains(m[x]));
                assert(changed.contains(m[x]));
                let y = choose|y: int| 0 <= y < changed.len() && changed[y] == m[x];
                if y == i {
                    assert(m[x] == moved);
                    lemma_update_multiset(b, i, moved);
                    crate::grid::sheets::lemma_ids_count(changed, i);
                    crate::grid::sheets::lemma_twice(m, if x < j { x } else { j }, if x < j { j } else { x });
                } else {
                    assert(changed[y] == b[y]);
                    if y < i {
                        assert(b[y].id != b[i].id);
                    } else {
                        assert(b[i].id != b[y].id);
                    }
                }
            }
            assert(is_first_with_id(m, target, j));
            lemma_sheet_index(m, target, j);
            assert(no_sheet_with_id(m, target) == false);
            let restored = Sheet { order: b[i].order, ..m[j] };
            assert(restored == b[i]);
            let back = m.update(j, restored);
            assert(a == sorted_seq(back, sheet_le()));
            crate::order::lemma_sorted_seq(back, sheet_le());
            lemma_update_multiset(b, i, moved);
            lemma_update_multiset(m, j, restored);
            assert(back.to_multiset() =~= b.to_multiset());
            assert forall|x: Sheet, y: Sheet|
                b.contains(x) && b.contains(y) && #[trigger] sheet_le()(x, y) && #[trigger] sheet_le()(
                    y,
                    x,
                ) implies x == y by {
                let p = choose|p: int| 0 <= p < b.len() && b[p] == x;
                let q = choose|q: int| 0 <= q < b.len() && b[q] == y;
                crate::order::lemma_text_antisym(x.order@, y.order@);
                if p < q {
                    assert(b[p].order@ != b[q].order@);
                }
                if q < p {
                    assert(b[q].order@ != b[p].order@);
                }
            }
            crate::order::lemma_sorted_same(b, a, sheet_le());
            assert forall|x: int| 0 <= x < a.len() implies (#[trigger] a[x]).same_content(b[x]) by {
                lemma_same_content_refl(b[x]);
            }
        },
        _ => {
            let id = op.target()->0;
            lemma_sheet_index_exists(b, id);
            let i = sheet_index(b, id);
            assert(is_first_with_id(b, id, i));
            assert(reverse.target() == Some(id) && !shape_error(reverse)) by {
                lemma_reverse_shape(b[i], op, reverse);
            }
            assert(is_first_with_id(m, id, i)) by {
                lemma_effect_keeps_id(b[i], op, m[i]);
                assert forall|j: int| 0 <= j < i implies (#[trigger] m[j]).id != id by {
                    assert(m[j] == b[j]);
                }
            }
            lemma_sheet_index(m, id, i);
            lemma_reverse_is_local(b[i], op, reverse);
            assert forall|j: int| 0 <= j < a.len() implies (#[trigger] a[j]).same_content(b[j]) by {
                if j == i {
                    lemma_sheet_undo(b[i], op, m[i], reverse, a[i]);
                } else {
                    assert(a[j] == m[j]);
                    assert(m[j] == b[j]);
                    lemma_same_content_refl(b[j]);
                }
            }
        },
    }
}

/// The operation that undoes an operation on a sheet names the same sheet
/// and fits it.
proof fn lemma_reverse_shape(before: Sheet, op: Operation, reverse: Operation)
    requires
        before.wf(),
        op.target() == Some(before.id),
        !(op is AddSheet) && !(op is DeleteSheet) && !(op is ReorderSheet),
        !shape_error(op),
        sheet_reverse(before, op, reverse),
    ensures
        reverse.target() == op.target(),
        !shape_error(reverse),
{
    match op {
        Operation::SetValidation { validation } => {
            lemma_validation_at_sheet(before, validation.id);
        },
        Operation::RemoveValidation { sheet_id, validation_id } => {
            lemma_validation_at_sheet(before, validation_id);
        },
        _ => {},
    }
}

/// A validation found on a well-formed sheet is for cells of that sheet.
proof fn lemma_validation_at_sheet(sheet: Sheet, id: u128)
    requires
        sheet.wf(),
    ensures
        sheet.validations.by_id(id) matches Some(v) ==> v.selection.sheet_id == sheet.id,
{
}

/// The operation that undoes an operation on a sheet is itself an operation
/// on a sheet.
proof fn lemma_reverse_is_local(before: Sheet, op: Operation, reverse: Operation)
    requires
        !(op is AddSheet) && !(op is DeleteSheet) && !(op is ReorderSheet),
        sheet_reverse(before, op, reverse),
    ensures
        !(reverse is AddSheet) && !(reverse is DeleteSheet) && !(reverse is ReorderSheet),
{
}

/// An operation on a sheet leaves the id of the sheet as it is.
proof fn lemma_effect_keeps_id(before: Sheet, op: Operation, after: Sheet)
    requires
        !(op is AddSheet) && !(op is DeleteSheet) && !(op is ReorderSheet),
        sheet_effect(before, op, after),
    ensures
        after.id == before.id,
{
}

} // verus!
