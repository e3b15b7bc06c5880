//! What applying operations makes of a grid depends on what the grid shows
//! and on the operations alone.

use crate::controller::execution::execute_operation::{
    lemma_sheet_index, op_effect, op_error, sheet_added, sheet_effect, sheet_index,
};
use crate::controller::execution::laws::{
    lemma_same_content_refl, lemma_sheet_index_exists,
};
use crate::controller::execution::run::ops_effect;
use crate::controller::operations::operation::Operation;
use crate::grid::code::{CodeRun, CodeRunResult};
use crate::grid::ids::SheetId;
use crate::grid::sheet::validations::validation::Validation;
use crate::grid::sheet::validations::validations_alike;
use crate::grid::sheet::{runs_alike, Sheet};
use crate::grid::sheets::{
    candidate_name, is_first_with_id, is_free_name, name_taken, no_sheet_with_id, sheet_le,
};
use crate::grid::Grid;
use crate::order::{keeps_order, lemma_sorted_seq_related, related, sorted_seq};
use crate::pos::Pos;
use crate::values::array::Value;
use vstd::prelude::*;

verus! {

/// Being alike goes both ways for values.
pub proof fn lemma_value_alike_sym(a: Value, b: Value)
    requires
        a.alike(b),
    ensures
        b.alike(a),
{
    match (a, b) {
        (Value::Tuple(x), Value::Tuple(y)) => {
            assert forall|i: int| 0 <= i < y@.len() implies (#[trigger] y@[i]).alike(x@[i]) by {
                assert(x@[i].alike(y@[i]));
            }
        },
        _ => {},
    }
}

/// Values that are like a third are like each other.
pub proof fn lemma_value_alike_trans(a: Value, b: Value, c: Value)
    requires
        a.alike(b),
        b.alike(c),
    ensures
        a.alike(c),
{
    match (a, b, c) {
        (Value::Tuple(x), Value::Tuple(y), Value::Tuple(z)) => {
            assert forall|i: int| 0 <= i < x@.len() implies (#[trigger] x@[i]).alike(z@[i]) by {
                assert(x@[i].alike(y@[i]));
                assert(y@[i].alike(z@[i]));
            }
        },
        _ => {},
    }
}

/// Being alike goes both ways for code runs.
pub proof fn lemma_runs_alike_sym(a: Option<CodeRun>, b: Option<CodeRun>)
    requires
        runs_alike(a, b),
    ensures
        runs_alike(b, a),
{
    match (a, b) {
        (Some(x), Some(y)) => {
            match (x.result, y.result) {
                (CodeRunResult::Output(v), CodeRunResult::Output(w)) => {
                    lemma_value_alike_sym(v, w);
                },
                _ => {},
            }
        },
        _ => {},
    }
}

/// Code runs that are like a third are like each other.
pub proof fn lemma_runs_alike_trans(a: Option<CodeRun>, b: Option<CodeRun>, c: Option<CodeRun>)
    requires
        runs_alike(a, b),
        runs_alike(b, c),
    ensures
        runs_alike(a, c),
{
    match (a, b, c) {
        (Some(x), Some(y), Some(z)) => {
            match (x.result, y.result, z.result) {
                (
                    CodeRunResult::Output(u),
                    CodeRunResult::Output(v),
                    CodeRunResult::Output(w),
                ) => {
                    lemma_value_alike_trans(u, v, w);
                },
                _ => {},
            }
        },
        _ => {},
    }
}

/// Being alike goes both ways for validations.
pub proof fn lemma_validations_alike_sym(a: Option<Validation>, b: Option<Validation>)
    requires
        validations_alike(a, b),
    ensures
        validations_alike(b, a),
{
}

/// Validations that are like a third are like each other.
pub proof fn lemma_validations_alike_trans(
    a: Option<Validation>,
    b: Option<Validation>,
    c: Option<Validation>,
)
    requires
        validations_alike(a, b),
        validations_alike(b, c),
    ensures
        validations_alike(a, c),
{
}

/// Showing the same goes both ways.
pub proof fn lemma_same_content_sym(a: Sheet, b: Sheet)
    requires
        a.same_content(b),
    ensures
        b.same_content(a),
{
    assert forall|p: Pos| runs_alike(#[trigger] b.code_run_at(p), a.code_run_at(p)) by {
        assert(runs_alike(a.code_run_at(p), b.code_run_at(p)));
        lemma_runs_alike_sym(a.code_run_at(p), b.code_run_at(p));
    }
    assert forall|id: u128|
        validations_alike(#[trigger] b.validations.by_id(id), a.validations.by_id(id)) by {
        assert(validations_alike(a.validations.by_id(id), b.validations.by_id(id)));
        lemma_validations_alike_sym(a.validations.by_id(id), b.validations.by_id(id));
    }
    assert forall|p: Pos| #[trigger] b.cell(p) == a.cell(p) by {
        assert(a.cell(p) == b.cell(p));
    }
    assert forall|p: Pos| #[trigger] b.format_model(p) == a.format_model(p) by {
        assert(a.format_model(p) == b.format_model(p));
    }
}

/// Sheets that show the same as a third show the same as each other.
pub proof fn lemma_same_content_trans(a: Sheet, b: Sheet, c: Sheet)
    requires
        a.same_content(b),
        b.same_content(c),
    ensures
        a.same_content(c),
{
    assert forall|p: Pos| runs_alike(#[trigger] a.code_run_at(p), c.code_run_at(p)) by {
        assert(runs_alike(a.code_run_at(p), b.code_run_at(p)));
        assert(runs_alike(b.code_run_at(p), c.code_run_at(p)));
        lemma_runs_alike_trans(a.code_run_at(p), b.code_run_at(p), c.code_run_at(p));
    }
    assert forall|id: u128|
        validations_alike(#[trigger] a.validations.by_id(id), c.validations.by_id(id)) by {
        assert(validations_alike(a.validations.by_id(id), b.validations.by_id(id)));
        assert(validations_alike(b.validations.by_id(id), c.validations.by_id(id)));
        lemma_validations_alike_trans(
            a.validations.by_id(id),
            b.validations.by_id(id),
            c.validations.by_id(id),
        );
    }
    assert forall|p: Pos| #[trigger] a.cell(p) == c.cell(p) by {
        assert(a.cell(p) == b.cell(p));
        assert(b.cell(p) == c.cell(p));
    }
    assert forall|p: Pos| #[trigger] a.format_model(p) == c.format_model(p) by {
        assert(a.format_model(p) == b.format_model(p));
        assert(b.format_model(p) == c.format_model(p));
    }
}

/// An operation on a single sheet makes of sheets that show the same sheets
/// that show the same.
pub proof fn lemma_sheet_effect_functional(
    before_a: Sheet,
    before_b: Sheet,
    op: Operation,
    after_a: Sheet,
    after_b: Sheet,
)
    requires
        before_a.same_content(before_b),
        sheet_effect(before_a, op, after_a),
        sheet_effect(before_b, op, after_b),
    ensures
        after_a.same_content(after_b),
{
    assert forall|p: Pos| #[trigger] after_a.cell(p) == after_b.cell(p) by {
        assert(before_a.cell(p) == before_b.cell(p));
    }
    assert forall|p: Pos| #[trigger] after_a.format_model(p) == after_b.format_model(p) by {
        assert(before_a.format_model(p) == before_b.format_model(p));
    }
    assert forall|p: Pos| runs_alike(#[trigger] after_a.code_run_at(p), after_b.code_run_at(p)) by {
        assert(runs_alike(before_a.code_run_at(p), before_b.code_run_at(p)));
        match op {
            Operation::SetCodeCell { sheet_pos, code_cell_value } => {
                if p == sheet_pos.spec_pos() {
                    lemma_runs_alike_sym(after_b.code_run_at(p), code_cell_value);
                    lemma_runs_alike_trans(
                        after_a.code_run_at(p),
                        code_cell_value,
                        after_b.code_run_at(p),
                    );
                }
            },
            _ => {},
        }
    }
    assert forall|id: u128|
        validations_alike(
            #[trigger] after_a.validations.by_id(id),
            after_b.validations.by_id(id),
        ) by {
        assert(validations_alike(before_a.validations.by_id(id), before_b.validations.by_id(id)));
        match op {
            Operation::SetValidation { validation } => {
                if id == validation.id {
                    lemma_validations_alike_sym(
                        after_b.validations.by_id(id),
                        Some(validation),
                    );
                    lemma_validations_alike_trans(
                        after_a.validations.by_id(id),
                        Some(validation),
                        after_b.validations.by_id(id),
                    );
                }
            },
            _ => {},
        }
    }
}

/// Two sheets show the same.
pub open spec fn shows_same() -> spec_fn(Sheet, Sheet) -> bool {
    |a: Sheet, b: Sheet| a.same_content(b)
}

/// Sheets that show the same stand in the same order.
pub proof fn lemma_shows_same_keeps_order()
    ensures
        keeps_order(shows_same(), sheet_le()),
{
    assert forall|a: Sheet, b: Sheet, c: Sheet, d: Sheet| #[trigger]
        shows_same()(a, b) && #[trigger] shows_same()(c, d) implies sheet_le()(a, c) == sheet_le()(
        b,
        d,
    ) by {}
}

/// Grids show the same where their sheets do, place by place.
pub proof fn lemma_related_grids(a: Grid, b: Grid)
    ensures
        a.same_content(b) == related(a.sheets@, b.sheets@, shows_same()),
{
    if a.same_content(b) {
        assert forall|i: int| 0 <= i < a.sheets@.len() implies shows_same()(
            #[trigger] a.sheets@[i],
            b.sheets@[i],
        ) by {}
    }
    if related(a.sheets@, b.sheets@, shows_same()) {
        assert forall|i: int| 0 <= i < a.sheets@.len() implies (
        #[trigger] a.sheets@[i]).same_content(b.sheets@[i]) by {
            assert(shows_same()(a.sheets@[i], b.sheets@[i]));
        }
    }
}

/// In lists of sheets that show the same, the first sheet with an id stands
/// at the same place.
pub proof fn lemma_first_with_id_related(a: Seq<Sheet>, b: Seq<Sheet>, id: SheetId, i: int)
    requires
        related(a, b, shows_same()),
        is_first_with_id(a, id, i),
    ensures
        is_first_with_id(b, id, i),
{
    assert(shows_same()(a[i], b[i]));
    assert forall|j: int| 0 <= j < i implies (#[trigger] b[j]).id != id by {
        assert(shows_same()(a[j], b[j]));
        assert(a[j].id != id);
    }
}

/// In lists of sheets that show the same, the same names are taken.
pub proof fn lemma_name_taken_related(a: Seq<Sheet>, b: Seq<Sheet>, name: Seq<char>)
    requires
        related(a, b, shows_same()),
        name_taken(a, name),
    ensures
        name_taken(b, name),
{
    let j = choose|j: int| 0 <= j < a.len() && (#[trigger] a[j]).name@ == name;
    assert(shows_same()(a[j], b[j]));
    assert(b[j].name@ == name);
}

/// There is one first free name.
pub proof fn lemma_free_name_unique(
    a: Seq<Sheet>,
    b: Seq<Sheet>,
    base: Seq<char>,
    first: Seq<char>,
    second: Seq<char>,
)
    requires
        related(a, b, shows_same()),
        related(b, a, shows_same()),
        is_free_name(a, base, first),
        is_free_name(b, base, second),
    ensures
        first == second,
{
    let k = choose|k: nat|
        {
            &&& #[trigger] candidate_name(base, k) == first
            &&& !name_taken(a, first)
            &&& forall|j: nat| j < k ==> name_taken(a, #[trigger] candidate_name(base, j))
        };
    let m = choose|m: nat|
        {
            &&& #[trigger] candidate_name(base, m) == second
            &&& !name_taken(b, second)
            &&& forall|j: nat| j < m ==> name_taken(b, #[trigger] candidate_name(base, j))
        };
    if k < m {
        assert(name_taken(b, candidate_name(base, k)));
        lemma_name_taken_related(b, a, first);
    }
    if m < k {
        assert(name_taken(a, candidate_name(base, m)));
        lemma_name_taken_related(a, b, second);
    }
}

/// The relation of showing the same goes both ways for lists of sheets.
pub proof fn lemma_related_sym(a: Seq<Sheet>, b: Seq<Sheet>)
    requires
        related(a, b, shows_same()),
    ensures
        related(b, a, shows_same()),
{
    assert forall|i: int| 0 <= i < b.len() implies shows_same()(#[trigger] b[i], a[i]) by {
        assert(shows_same()(a[i], b[i]));
        lemma_same_content_sym(a[i], b[i]);
    }
}

/// An operation that can be applied makes of grids that show the same grids
/// that show the same.
pub proof fn lemma_op_functional(
    before_a: Grid,
    before_b: Grid,
    op: Operation,
    after_a: Grid,
    after_b: Grid,
)
    requires
        before_a.same_content(before_b),
        op_error(before_a, op) is None,
        op_effect(before_a, op, after_a),
        op_effect(before_b, op, after_b),
    ensures
        after_a.same_content(after_b),
{
    let a = before_a.sheets@;
    let b = before_b.sheets@;
    lemma_related_grids(before_a, before_b);
    lemma_related_sym(a, b);
    lemma_shows_same_keeps_order();
    match op {
        Operation::AddSheet { sheet } => {
            let k = choose|k: int|
                {
                    &&& 0 <= k < after_a.sheets@.len()
                    &&& after_a.sheets@ == sorted_seq(
                        a.push(#[trigger] after_a.sheets@[k]),
                        sheet_le(),
                    )
                    &&& after_a.sheets@[k].id == sheet.id
                    &&& after_a.sheets@[k].order == sheet.order
                    &&& is_free_name(a, sheet.name@, after_a.sheets@[k].name@)
                    &&& (Sheet { name: sheet.name, ..after_a.sheets@[k] }).same_content(sheet)
                };
            let m = choose|m: int|
                {
                    &&& 0 <= m < after_b.sheets@.len()
                    &&& after_b.sheets@ == sorted_seq(
                        b.push(#[trigger] after_b.sheets@[m]),
                        sheet_le(),
                    )
                    &&& after_b.sheets@[m].id == sheet.id
                    &&& after_b.sheets@[m].order == sheet.order
                    &&& is_free_name(b, sheet.name@, after_b.sheets@[m].name@)
                    &&& (Sheet { name: sheet.name, ..after_b.sheets@[m] }).same_content(sheet)
                };
            let x = after_a.sheets@[k];
            let y = after_b.sheets@[m];
            lemma_free_name_unique(a, b, sheet.name@, x.name@, y.name@);
            let named_x = Sheet { name: sheet.name, ..x };
            let named_y = Sheet { name: sheet.name, ..y };
            lemma_same_content_sym(named_y, sheet);
            lemma_same_content_trans(named_x, sheet, named_y);
            assert(x.same_content(y)) by {
                assert forall|p: Pos| #[trigger] x.cell(p) == y.cell(p) by {
                    assert(named_x.cell(p) == named_y.cell(p));
                }
                assert forall|p: Pos| #[trigger] x.format_model(p) == y.format_model(p) by {
                    assert(named_x.format_model(p) == named_y.format_model(p));
                }
                assert forall|p: Pos| runs_alike(#[trigger] x.code_run_at(p), y.code_run_at(p)) by {
                    assert(runs_alike(named_x.code_run_at(p), named_y.code_run_at(p)));
                }
                assert forall|id: u128|
                    validations_alike(
                        #[trigger] x.validations.by_id(id),
                        y.validations.by_id(id),
                    ) by {
                    assert(validations_alike(
                        named_x.validations.by_id(id),
                        named_y.validations.by_id(id),
                    ));
                }
            }
            assert(related(a.push(x), b.push(y), shows_same())) by {
                assert forall|i: int| 0 <= i < a.push(x).len() implies shows_same()(
                    #[trigger] a.push(x)[i],
                    b.push(y)[i],
                ) by {
                    if i < a.len() {
                        assert(shows_same()(a[i], b[i]));
                    }
                }
            }
            lemma_sorted_seq_related(a.push(x), b.push(y), sheet_le(), shows_same());
        },
        Operation::DeleteSheet { sheet_id } => {
            lemma_sheet_index_exists(a, sheet_id);
            let i = sheet_index(a, sheet_id);
            lemma_first_with_id_related(a, b, sheet_id, i);
            lemma_sheet_index(b, sheet_id, i);
            assert forall|j: int| 0 <= j < a.remove(i).len() implies shows_same()(
                #[trigger] a.remove(i)[j],
                b.remove(i)[j],
            ) by {
                if j < i {
                    assert(shows_same()(a[j], b[j]));
                } else {
                    assert(shows_same()(a[j + 1], b[j + 1]));
                }
            }
        },
        Operation::ReorderSheet { target, order } => {
            lemma_sheet_index_exists(a, target);
            let i = sheet_index(a, target);
            lemma_first_with_id_related(a, b, target, i);
            lemma_sheet_index(b, target, i);
            let moved_a = a.update(i, Sheet { order, ..a[i] });
            let moved_b = b.update(i, Sheet { order, ..b[i] });
            assert forall|j: int| 0 <= j < moved_a.len() implies shows_same()(
                #[trigger] moved_a[j],
                moved_b[j],
            ) by {
                assert(shows_same()(a[j], b[j]));
                if j == i {
                    let x = Sheet { order, ..a[i] };
                    let y = Sheet { order, ..b[i] };
                    assert forall|p: Pos| #[trigger] x.cell(p) == y.cell(p) by {
                        assert(a[i].cell(p) == b[i].cell(p));
                    }
                    assert forall|p: Pos| #[trigger] x.format_model(p) == y.format_model(p) by {
                        assert(a[i].format_model(p) == b[i].format_model(p));
                    }
                    assert forall|p: Pos|
                        runs_alike(#[trigger] x.code_run_at(p), y.code_run_at(p)) by {
                        assert(runs_alike(a[i].code_run_at(p), b[i].code_run_at(p)));
                    }
                    assert forall|id: u128|
                        validations_alike(
                            #[trigger] x.validations.by_id(id),
                            y.validations.by_id(id),
                        ) by {
                        assert(validations_alike(
                            a[i].validations.by_id(id),
                            b[i].validations.by_id(id),
                        ));
                    }
                }
            }
            lemma_sorted_seq_related(moved_a, moved_b, sheet_le(), shows_same());
        },
        _ => {
            let id = op.target()->0;
            lemma_sheet_index_exists(a, id);
            let i = sheet_index(a, id);
            lemma_first_with_id_related(a, b, id, i);
            lemma_sheet_index(b, id, i);
            assert forall|j: int| 0 <= j < after_a.sheets@.len() implies shows_same()(
                #[trigger] after_a.sheets@[j],
                after_b.sheets@[j],
            ) by {
                assert(shows_same()(a[j], b[j]));
                if j == i {
                    lemma_sheet_effect_functional(
                        a[i],
                        b[i],
                        op,
                        after_a.sheets@[i],
                        after_b.sheets@[i],
                    );
                }
            }
        },
    }
    lemma_related_grids(after_a, after_b);
}

/// Operations that can be applied one after the other make of grids that show the same
/// grids that show the same.
pub proof fn lemma_ops_functional(
    before_a: Grid,
    before_b: Grid,
    ops: Seq<Operation>,
    after_a: Grid,
    after_b: Grid,
)
    requires
        before_a.same_content(before_b),
        ops_effect(before_a, ops, after_a),
        ops_effect(before_b, ops, after_b),
    ensures
        after_a.same_content(after_b),
    decreases ops.len(),
{
    if ops.len() == 0 {
        assert forall|i: int| 0 <= i < after_a.sheets@.len() implies (
        #[trigger] after_a.sheets@[i]).same_content(after_b.sheets@[i]) by {
            assert(before_a.sheets@[i].same_content(before_b.sheets@[i]));
        }
    } else {
        let mid_a = choose|mid: Grid|
            {
                &&& op_error(mid, ops.last()) is None
                &&& #[trigger] op_effect(mid, ops.last(), after_a)
                &&& ops_effect(before_a, ops.drop_last(), mid)
            };
        let mid_b = choose|mid: Grid|
            {
                &&& op_error(mid, ops.last()) is None
                &&& #[trigger] op_effect(mid, ops.last(), after_b)
                &&& ops_effect(before_b, ops.drop_last(), mid)
            };
        lemma_ops_functional(before_a, before_b, ops.drop_last(), mid_a, mid_b);
        lemma_op_functional(mid_a, mid_b, ops.last(), after_a, after_b);
    }
}

/// A grid shows the same as itself.
pub proof fn lemma_grid_same_content_refl(grid: Grid)
    ensures
        grid.same_content(grid),
{
    assert forall|i: int| 0 <= i < grid.sheets@.len() implies (
    #[trigger] grid.sheets@[i]).same_content(grid.sheets@[i]) by {
        lemma_same_content_refl(grid.sheets@[i]);
    }
}

} // verus!
