//! The code runs of a sheet, and what they show.

use crate::grid::code::{far_edge, CodeRun};
use crate::grid::column::keys_between;
use crate::grid::formatting::RenderSize;
use crate::grid::sheet::Sheet;
use crate::grid::track::{opt_model, TrackValue};
use crate::pos::{Pos, SheetPos};
use crate::rect::{Rect, SheetRect};
use crate::values::CellValue;
use vstd::prelude::*;

verus! {

broadcast use {vstd::std_specs::btree::group_btree_axioms, vstd::laws_cmp::group_laws_cmp};

/// The place of the code run at `pos` in the list, if there is one.
pub open spec fn run_index(runs: Seq<(Pos, CodeRun)>, pos: Pos) -> Option<int> {
    if exists|i: int| 0 <= i < runs.len() && (#[trigger] runs[i]).0 == pos {
        Some(choose|i: int| 0 <= i < runs.len() && (#[trigger] runs[i]).0 == pos)
    } else {
        None
    }
}

/// What the code run at `origin` shows at `pos`.
pub open spec fn shown_by(origin: Pos, run: CodeRun, pos: Pos) -> Option<CellValue> {
    if run.spec_output_rect(origin).spec_contains(pos) {
        run.spec_output_value(pos.x - origin.x, pos.y - origin.y)
    } else {
        None
    }
}

/// What the first code run that shows anything at `pos` shows there.
pub open spec fn output_in(runs: Seq<(Pos, CodeRun)>, pos: Pos) -> Option<CellValue>
    decreases runs.len(),
{
    if runs.len() == 0 {
        None
    } else if shown_by(runs[0].0, runs[0].1, pos) is Some {
        shown_by(runs[0].0, runs[0].1, pos)
    } else {
        output_in(runs.drop_first(), pos)
    }
}

/// The code runs whose output touches `rect`, each with the rectangle of its
/// output, in the order of the list.
pub open spec fn outputs_in_rect(runs: Seq<(Pos, CodeRun)>, rect: Rect) -> Seq<(Rect, CodeRun)>
    decreases runs.len(),
{
    if runs.len() == 0 {
        Seq::empty()
    } else {
        let head = outputs_in_rect(runs.drop_last(), rect);
        let (origin, run) = runs.last();
        if run.spec_output_rect(origin).spec_intersects(rect) {
            head.push((run.spec_output_rect(origin), run))
        } else {
            head
        }
    }
}

/// The cells that the held-back output of the run at `origin` would occupy.
pub open spec fn wanted_rect(origin: Pos, run: CodeRun, sheet_id: crate::grid::ids::SheetId) -> SheetRect {
    SheetRect {
        min: origin,
        max: Pos {
            x: far_edge(origin.x, run.spec_output_size().w),
            y: far_edge(origin.y, run.spec_output_size().h),
        },
        sheet_id,
    }
}

/// Whether the run at place `i` is held back, would show more than one cell,
/// and wants cells of `sheet_rect`.
pub open spec fn waits_for(runs: Seq<(Pos, CodeRun)>, i: int, sheet_rect: SheetRect) -> bool {
    &&& 0 <= i < runs.len()
    &&& runs[i].1.spill_error
    &&& runs[i].1.spec_output_size().spec_len() != 1
    &&& sheet_rect.spec_intersects(wanted_rect(runs[i].0, runs[i].1, sheet_rect.sheet_id))
}

impl Sheet {
    /// The code run of the code cell at `pos`, if there is one.
    pub open spec fn code_run_at(self, pos: Pos) -> Option<CodeRun> {
        run_at(self.code_runs@, pos)
    }

    /// Where the code run at `pos` sits in the list.
    fn find_code_run(&self, pos: Pos) -> (r: Option<usize>)
        requires
            self.wf(),
        ensures
            match r {
                Some(i) => run_index(self.code_runs@, pos) == Some(i as int) && i
                    < self.code_runs@.len() && self.code_runs@[i as int].0 == pos,
                None => run_index(self.code_runs@, pos) is None,
            },
    {
        let mut i: usize = 0;
        while i < self.code_runs.len()
            invariant
                i <= self.code_runs@.len(),
                self.wf(),
                forall|j: int| 0 <= j < i ==> (#[trigger] self.code_runs@[j]).0 != pos,
            decreases self.code_runs.len() - i,
        {
            if self.code_runs[i].0 == pos {
                proof {
                    let k = choose|k: int|
                        0 <= k < self.code_runs@.len() && (#[trigger] self.code_runs@[k]).0 == pos;
                    if k < i {
                        assert(self.code_runs@[k].0 != self.code_runs@[i as int].0);
                    }
                    if k > i {
                        assert(self.code_runs@[i as int].0 != self.code_runs@[k].0);
                    }
                }
                return Some(i);
            }
            i += 1;
        }
        None
    }

    /// Sets or deletes the code run of the code cell at `pos`. Returns the
    /// run that was there before. The other runs keep their order; a new run
    /// goes to the end.
    pub fn set_code_cell(&mut self, pos: Pos, code_run: Option<CodeRun>) -> (previous: Option<
        CodeRun,
    >)
        requires
            old(self).wf(),
            code_run matches Some(run) ==> run.wf(),
        ensures
            final(self).wf(),
            previous == old(self).code_run_at(pos),
            final(self).code_run_at(pos) == code_run,
            forall|p: Pos| p != pos ==> #[trigger] final(self).code_run_at(p) == old(self).code_run_at(p),
            final(self).code_runs@ == match run_index(old(self).code_runs@, pos) {
                Some(i) => old(self).code_runs@.remove(i),
                None => old(self).code_runs@,
            } + match code_run {
                Some(run) => seq![(pos, run)],
                None => Seq::empty(),
            },
            final(self).columns == old(self).columns,
            final(self).validations == old(self).validations,
            final(self).offsets == old(self).offsets,
            final(self).borders == old(self).borders,
            final(self).id == old(self).id,
            final(self).name == old(self).name,
            final(self).color == old(self).color,
            final(self).order == old(self).order,
            final(self).data_bounds == old(self).data_bounds,
            final(self).format_bounds == old(self).format_bounds,
    {
        let ghost before = self.code_runs@;
        let previous = match self.find_code_run(pos) {
            Some(i) => Some(self.code_runs.remove(i).1),
            None => None,
        };
        let ghost middle = self.code_runs@;
        proof {
            assert forall|j: int| 0 <= j < middle.len() implies (#[trigger] middle[j]).0 != pos by {
                match run_index(before, pos) {
                    Some(i) => {
                        if j < i {
                            assert(middle[j] == before[j]);
                            assert(before[j].0 != before[i].0);
                        } else {
                            assert(middle[j] == before[j + 1]);
                            assert(before[i].0 != before[j + 1].0);
                        }
                    },
                    None => {
                        assert(middle[j] == before[j]);
                    },
                }
            }
            assert forall|a: int, b: int| 0 <= a < b < middle.len() implies (#[trigger] middle[a]).0
                != (#[trigger] middle[b]).0 by {
                match run_index(before, pos) {
                    Some(i) => {
                        let a0 = if a < i {
                            a
                        } else {
                            a + 1
                        };
                        let b0 = if b < i {
                            b
                        } else {
                            b + 1
                        };
                        assert(middle[a] == before[a0] && middle[b] == before[b0]);
                        assert(before[a0].0 != before[b0].0);
                    },
                    None => {},
                }
            }
            assert forall|p: Pos| p != pos implies run_at(middle, p) == run_at(before, p) by {
                lemma_run_at_remove(before, pos, p);
            }
        }
        match code_run {
            Some(run) => {
                self.code_runs.push((pos, run));
                proof {
                    let after = self.code_runs@;
                    assert(after[after.len() - 1].0 == pos);
                    assert forall|a: int, b: int| 0 <= a < b < after.len() implies (
                    #[trigger] after[a]).0 != (#[trigger] after[b]).0 by {
                        assert(after[a] == middle[a]);
                        if b < after.len() - 1 {
                            assert(after[b] == middle[b]);
                        }
                    }
                    lemma_run_at_unique(after, after.len() - 1);
                    assert forall|p: Pos| p != pos implies run_at(after, p) == run_at(middle, p) by {
                        lemma_run_at_push(middle, (pos, run), p);
                    }
                }
            },
            None => {},
        }
        previous
    }

    /// Returns the code run of the code cell at `pos`.
    pub fn get_code_cell(&self, pos: Pos) -> (r: Option<&CodeRun>)
        requires
            self.wf(),
        ensures
            self.code_run_at(pos) matches Some(run) ==> r == Some(&run),
            self.code_run_at(pos) is None ==> r is None,
    {
        match self.find_code_run(pos) {
            Some(i) => Some(&self.code_runs[i].1),
            None => None,
        }
    }

    /// What the code runs show at `pos`: the output value of the first run in
    /// the list whose output holds a value for that cell.
    pub fn get_code_cell_value(&self, pos: Pos) -> (r: Option<CellValue>)
        requires
            self.wf(),
        ensures
            r == output_in(self.code_runs@, pos),
    {
        let mut i: usize = 0;
        assert(self.code_runs@.skip(0) == self.code_runs@);
        while i < self.code_runs.len()
            invariant
                i <= self.code_runs@.len(),
                self.wf(),
                output_in(self.code_runs@, pos) == output_in(self.code_runs@.skip(i as int), pos),
            decreases self.code_runs.len() - i,
        {
            let origin = self.code_runs[i].0;
            let run = &self.code_runs[i].1;
            let ghost rest = self.code_runs@.skip(i as int);
            proof {
                assert(rest[0] == self.code_runs@[i as int]);
                assert(rest.drop_first() == self.code_runs@.skip(i + 1));
                assert(self.code_runs@[i as int].1.wf());
            }
            let rect = run.output_rect(origin);
            if rect.contains(pos) {
                let dx = (pos.x as i128) - (origin.x as i128);
                let dy = (pos.y as i128) - (origin.y as i128);
                if dx <= u32::MAX as i128 && dy <= u32::MAX as i128 {
                    let shown = run.get_output_value(dx as u32, dy as u32);
                    if shown.is_some() {
                        return shown;
                    }
                } else {
                    proof {
                        let size = run.spec_output_size();
                        assert(run.spec_output_value(dx as int, dy as int) is None);
                    }
                }
            }
            i += 1;
        }
        assert(self.code_runs@.skip(self.code_runs@.len() as int).len() == 0);
        None
    }

    /// What the cell at `pos` displays: its own value, or, where it holds
    /// none or holds code, what the code runs show there.
    pub open spec fn spec_display_value(self, pos: Pos) -> Option<CellValue> {
        match self.cell(pos) {
            Some(CellValue::Code(_)) => output_in(self.code_runs@, pos),
            Some(v) => Some(v),
            None => output_in(self.code_runs@, pos),
        }
    }

    /// What the cell at `pos` displays.
    pub fn display_value(&self, pos: Pos) -> (r: Option<CellValue>)
        requires
            self.wf(),
        ensures
            r == self.spec_display_value(pos),
    {
        match self.get_cell_value(pos) {
            Some(CellValue::Code(_)) => self.get_code_cell_value(pos),
            Some(v) => Some(v),
            None => self.get_code_cell_value(pos),
        }
    }

    /// The code runs whose output touches `rect`, each with the rectangle of
    /// its output, in the order of the list.
    pub fn iter_code_output_in_rect(&self, rect: Rect) -> (r: Vec<(Rect, &CodeRun)>)
        requires
            self.wf(),
        ensures
            r@.len() == outputs_in_rect(self.code_runs@, rect).len(),
            forall|i: int|
                0 <= i < r@.len() ==> (#[trigger] r@[i]).0 == outputs_in_rect(
                    self.code_runs@,
                    rect,
                )[i].0 && *r@[i].1 == outputs_in_rect(self.code_runs@, rect)[i].1,
    {
        let mut out: Vec<(Rect, &CodeRun)> = Vec::new();
        let mut i: usize = 0;
        while i < self.code_runs.len()
            invariant
                i <= self.code_runs@.len(),
                self.wf(),
                out@.len() == outputs_in_rect(self.code_runs@.take(i as int), rect).len(),
                forall|k: int|
                    0 <= k < out@.len() ==> (#[trigger] out@[k]).0 == outputs_in_rect(
                        self.code_runs@.take(i as int),
                        rect,
                    )[k].0 && *out@[k].1 == outputs_in_rect(self.code_runs@.take(i as int), rect)[k].1,
            decreases self.code_runs.len() - i,
        {
            proof {
                assert(self.code_runs@.take(i + 1).drop_last() == self.code_runs@.take(i as int));
                assert(self.code_runs@.take(i + 1).last() == self.code_runs@[i as int]);
                assert(self.code_runs@[i as int].1.wf());
            }
            let origin = self.code_runs[i].0;
            let run = &self.code_runs[i].1;
            let output_rect = run.output_rect(origin);
            if output_rect.intersects(rect) {
                out.push((output_rect, run));
            }
            i += 1;
        }
        assert(self.code_runs@.take(self.code_runs@.len() as int) == self.code_runs@);
        out
    }

    /// Returns the render size of an embedded cell.
    pub fn render_size(&self, pos: Pos) -> (r: Option<RenderSize>)
        requires
            self.wf(),
        ensures
            opt_model(r) == self.format_model(pos).render_size,
    {
        match self.columns.get(&pos.x) {
            Some(column) => match column.render_size.get(pos.y) {
                Some(size) => Some(size.duplicate()),
                None => None,
            },
            None => None,
        }
    }

    /// Looks for a held-back code run that the change of `sheet_rect` may
    /// have set free: among the runs that are held back, would show more than
    /// one cell and want cells of `sheet_rect`, the one modified earliest,
    /// and among several of those the first in the list.
    pub fn spill_error_released(&self, sheet_rect: &SheetRect) -> (r: Option<(SheetPos, CodeRun)>)
        requires
            self.wf(),
        ensures
            r is None <==> forall|i: int| !waits_for(self.code_runs@, i, *sheet_rect),
            r matches Some((at, run)) ==> exists|i: int|
                {
                    &&& #[trigger] waits_for(self.code_runs@, i, *sheet_rect)
                    &&& at == (SheetPos {
                        x: self.code_runs@[i].0.x,
                        y: self.code_runs@[i].0.y,
                        sheet_id: sheet_rect.sheet_id,
                    })
                    &&& run.alike(self.code_runs@[i].1)
                    &&& forall|j: int| #[trigger]
                        waits_for(self.code_runs@, j, *sheet_rect) ==> if j < i {
                            self.code_runs@[i].1.last_modified < self.code_runs@[j].1.last_modified
                        } else {
                            self.code_runs@[i].1.last_modified <= self.code_runs@[j].1.last_modified
                        }
                },
    {
        let mut best: Option<usize> = None;
        let mut i: usize = 0;
        while i < self.code_runs.len()
            invariant
                i <= self.code_runs@.len(),
                self.wf(),
                best is None <==> forall|j: int|
                    0 <= j < i ==> !waits_for(self.code_runs@, j, *sheet_rect),
                best matches Some(b) ==> b < i && waits_for(self.code_runs@, b as int, *sheet_rect)
                    && forall|j: int|
                    0 <= j < i && #[trigger] waits_for(self.code_runs@, j, *sheet_rect) ==> if j < b {
                        self.code_runs@[b as int].1.last_modified
                            < self.code_runs@[j].1.last_modified
                    } else {
                        self.code_runs@[b as int].1.last_modified
                            <= self.code_runs@[j].1.last_modified
                    },
            decreases self.code_runs.len() - i,
        {
            let origin = self.code_runs[i].0;
            let run = &self.code_runs[i].1;
            let size = run.output_size();
            let mut waits = false;
            if run.has_spill_error() && size.len() != 1 {
                let wanted = SheetRect {
                    min: origin,
                    max: Pos {
                        x: crate::grid::code::far_edge_exec(origin.x, size.w),
                        y: crate::grid::code::far_edge_exec(origin.y, size.h),
                    },
                    sheet_id: sheet_rect.sheet_id,
                };
                waits = sheet_rect.intersects(wanted);
            }
            assert(waits == waits_for(self.code_runs@, i as int, *sheet_rect));
            if waits {
                best = match best {
                    None => Some(i),
                    Some(b) => if run.last_modified < self.code_runs[b].1.last_modified {
                        Some(i)
                    } else {
                        Some(b)
                    },
                };
            }
            i += 1;
        }
        match best {
            Some(b) => {
                let origin = self.code_runs[b].0;
                Some((origin.to_sheet_pos(sheet_rect.sheet_id), self.code_runs[b].1.clone()))
            },
            None => None,
        }
    }

    /// Clears every cell of `rect`. Formatting and code runs stay; the bounds
    /// are left as they are.
    pub fn delete_range(&mut self, rect: Rect)
        requires
            old(self).wf(),
        ensures
            final(self).wf(),
            forall|p: Pos| #[trigger]
                final(self).cell(p) == if rect.spec_contains(p) {
                    None
                } else {
                    old(self).cell(p)
                },
            forall|p: Pos| #[trigger] final(self).format_model(p) == old(self).format_model(p),
            final(self).same_frame(*old(self)),
            final(self).columns@.dom() == old(self).columns@.dom(),
    {
        let xs = keys_between(&self.columns, rect.min.x, rect.max.x);
        let ghost before = *self;
        let mut i: usize = 0;
        while i < xs.len()
            invariant
                i <= xs@.len(),
                self.wf(),
                before.wf(),
                self.same_frame(before),
                self.columns@.dom() == before.columns@.dom(),
                forall|k: i64| #[trigger]
                    xs@.contains(k) <==> before.columns@.contains_key(k) && rect.min.x <= k
                        <= rect.max.x,
                forall|p: Pos| #[trigger] self.format_model(p) == before.format_model(p),
                forall|p: Pos| #[trigger]
                    self.cell(p) == if (exists|j: int| 0 <= j < i && xs@[j] == p.x) && rect.min.y
                        <= p.y <= rect.max.y {
                        None
                    } else {
                        before.cell(p)
                    },
            decreases xs.len() - i,
        {
            let x = xs[i];
            let ghost mid = *self;
            proof {
                assert(xs@.contains(x));
            }
            match self.columns.remove(&x) {
                Some(column) => {
                    let mut column = column;
                    column.clear_rows(rect.min.y, rect.max.y);
                    self.columns.insert(x, column);
                    proof {
                        assert(self.columns@.dom() =~= before.columns@.dom());
                    }
                },
                None => {},
            }
            i += 1;
            proof {
                assert forall|p: Pos| #[trigger]
                    self.cell(p) == if (exists|j: int| 0 <= j < i && xs@[j] == p.x) && rect.min.y
                        <= p.y <= rect.max.y {
                        None
                    } else {
                        before.cell(p)
                    } by {
                    if p.x == x {
                        assert(xs@[i - 1] == p.x);
                    } else {
                        assert(self.cell(p) == mid.cell(p));
                        if exists|j: int| 0 <= j < i && xs@[j] == p.x {
                            let j = choose|j: int| 0 <= j < i && xs@[j] == p.x;
                            assert(0 <= j < i - 1 && xs@[j] == p.x);
                        }
                    }
                }
                assert forall|p: Pos| #[trigger] self.format_model(p) == before.format_model(p) by {
                    assert(mid.format_model(p) == before.format_model(p));
                }
            }
        }
        proof {
            assert forall|p: Pos| #[trigger]
                self.cell(p) == if rect.spec_contains(p) {
                    None
                } else {
                    before.cell(p)
                } by {
                if exists|j: int| 0 <= j < xs@.len() && xs@[j] == p.x {
                    let j = choose|j: int| 0 <= j < xs@.len() && xs@[j] == p.x;
                    assert(xs@.contains(p.x));
                } else {
                    if before.columns@.contains_key(p.x) && rect.min.x <= p.x <= rect.max.x {
                        assert(xs@.contains(p.x));
                    }
                }
            }
        }
    }
}

/// The code run at `pos` in a list, if there is one.
pub open spec fn run_at(runs: Seq<(Pos, CodeRun)>, pos: Pos) -> Option<CodeRun> {
    match run_index(runs, pos) {
        Some(i) => Some(runs[i].1),
        None => None,
    }
}

/// In a list without repeated positions, the run at a position is the one
/// stored with it.
pub proof fn lemma_run_at_unique(runs: Seq<(Pos, CodeRun)>, i: int)
    requires
        0 <= i < runs.len(),
        forall|a: int, b: int|
            0 <= a < b < runs.len() ==> (#[trigger] runs[a]).0 != (#[trigger] runs[b]).0,
    ensures
        run_at(runs, runs[i].0) == Some(runs[i].1),
        run_index(runs, runs[i].0) == Some(i),
{
    let pos = runs[i].0;
    let k = choose|k: int| 0 <= k < runs.len() && (#[trigger] runs[k]).0 == pos;
    if k < i {
        assert(runs[k].0 != runs[i].0);
    }
    if k > i {
        assert(runs[i].0 != runs[k].0);
    }
}

/// Removing the run at `pos` leaves the runs at other positions as they are.
pub proof fn lemma_run_at_remove(runs: Seq<(Pos, CodeRun)>, pos: Pos, p: Pos)
    requires
        p != pos,
        forall|a: int, b: int|
            0 <= a < b < runs.len() ==> (#[trigger] runs[a]).0 != (#[trigger] runs[b]).0,
    ensures
        run_at(
            match run_index(runs, pos) {
                Some(i) => runs.remove(i),
                None => runs,
            },
            p,
        ) == run_at(runs, p),
{
    match run_index(runs, pos) {
        Some(i) => {
            let rest = runs.remove(i);
            assert forall|a: int, b: int| 0 <= a < b < rest.len() implies (#[trigger] rest[a]).0
                != (#[trigger] rest[b]).0 by {
                let a0 = if a < i {
                    a
                } else {
                    a + 1
                };
                let b0 = if b < i {
                    b
                } else {
                    b + 1
                };
                assert(rest[a] == runs[a0] && rest[b] == runs[b0]);
                assert(runs[a0].0 != runs[b0].0);
            }
            match run_index(runs, p) {
                Some(k) => {
                    let k2 = if k < i {
                        k
                    } else {
                        k - 1
                    };
                    assert(rest[k2] == runs[k]);
                    lemma_run_at_unique(rest, k2);
                },
                None => {
                    if run_index(rest, p) is Some {
                        let k2 = run_index(rest, p)->0;
                        let k = if k2 < i {
                            k2
                        } else {
                            k2 + 1
                        };
                        assert(rest[k2] == runs[k]);
                        assert(runs[k].0 == p);
                    }
                },
            }
        },
        None => {},
    }
}

/// Appending a run at `entry.0` leaves the runs at other positions as they
/// are.
pub proof fn lemma_run_at_push(runs: Seq<(Pos, CodeRun)>, entry: (Pos, CodeRun), p: Pos)
    requires
        p != entry.0,
        forall|a: int, b: int|
            0 <= a < b < runs.len() ==> (#[trigger] runs[a]).0 != (#[trigger] runs[b]).0,
        forall|a: int| 0 <= a < runs.len() ==> (#[trigger] runs[a]).0 != entry.0,
    ensures
        run_at(runs.push(entry), p) == run_at(runs, p),
{
    let after = runs.push(entry);
    assert forall|a: int, b: int| 0 <= a < b < after.len() implies (#[trigger] after[a]).0 != (
    #[trigger] after[b]).0 by {
        assert(after[a] == runs[a]);
        if b < runs.len() {
            assert(after[b] == runs[b]);
        }
    }
    match run_index(runs, p) {
        Some(k) => {
            assert(after[k] == runs[k]);
            lemma_run_at_unique(after, k);
        },
        None => {
            if run_index(after, p) is Some {
                let k = run_index(after, p)->0;
                assert(k < runs.len());
                assert(after[k] == runs[k]);
                assert(runs[k].0 == p);
            }
        },
    }
}

/// Two lists without repeated positions that hold alike runs at the same
/// positions, place by place, hold alike runs at every position.
pub proof fn lemma_run_at_alike(a: Seq<(Pos, CodeRun)>, b: Seq<(Pos, CodeRun)>, p: Pos)
    requires
        a.len() == b.len(),
        forall|i: int| 0 <= i < a.len() ==> (#[trigger] a[i]).0 == b[i].0 && a[i].1.alike(b[i].1),
        forall|i: int, j: int| 0 <= i < j < a.len() ==> (#[trigger] a[i]).0 != (#[trigger] a[j]).0,
    ensures
        crate::grid::sheet::runs_alike(run_at(a, p), run_at(b, p)),
{
    assert forall|i: int, j: int| 0 <= i < j < b.len() implies (#[trigger] b[i]).0 != (
    #[trigger] b[j]).0 by {
        assert(a[i].0 != a[j].0);
    }
    match run_index(a, p) {
        Some(i) => {
            assert(b[i].0 == p);
            lemma_run_at_unique(a, i);
            lemma_run_at_unique(b, i);
        },
        None => {
            if run_index(b, p) is Some {
                let i = run_index(b, p)->0;
                assert(a[i].0 == p);
            }
        },
    }
}

} // verus!
