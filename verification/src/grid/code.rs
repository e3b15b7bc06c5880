//! The cached outcome of running a code cell.

use crate::pos::Pos;
use crate::rect::{Rect, SheetRect};
use crate::values::array::{ArraySize, Value};
use crate::values::{CellValue, RunError};
use vstd::prelude::*;

verus! {

/// What running a code cell ended in.
#[derive(Debug, PartialEq, Eq)]
pub enum CodeRunResult {
    Output(Value),
    Failure(RunError),
}

/// The cached outcome of running the code cell at some position: what it
/// printed, what it read, what it returned, and whether its output is held
/// back because it would cover another cell's content.
#[derive(Debug, PartialEq, Eq)]
pub struct CodeRun {
    pub formatted_code_string: Option<String>,
    pub std_out: Option<String>,
    pub std_err: Option<String>,
    pub cells_accessed: Vec<SheetRect>,
    pub result: CodeRunResult,
    pub return_type: Option<String>,
    pub line_number: Option<u32>,
    pub output_type: Option<String>,
    pub spill_error: bool,
    /// Milliseconds since the Unix epoch.
    pub last_modified: i64,
}

/// A clone of an optional text.
pub fn clone_opt_string(s: &Option<String>) -> (r: Option<String>)
    ensures
        r == *s,
{
    match s {
        Some(t) => Some(t.clone()),
        None => None,
    }
}

/// A copy of a list of rectangles.
pub fn clone_rects(rects: &Vec<SheetRect>) -> (r: Vec<SheetRect>)
    ensures
        r@ == rects@,
{
    let mut out: Vec<SheetRect> = Vec::new();
    let mut i: usize = 0;
    while i < rects.len()
        invariant
            i <= rects@.len(),
            out@ == rects@.take(i as int),
        decreases rects.len() - i,
    {
        out.push(rects[i]);
        i += 1;
        assert(rects@.take(i as int) == rects@.take(i - 1).push(rects@[i - 1]));
    }
    assert(rects@.take(rects@.len() as int) == rects@);
    out
}

impl CodeRunResult {
    /// Both results are of one kind and hold the same.
    pub open spec fn alike(self, other: CodeRunResult) -> bool {
        match (self, other) {
            (CodeRunResult::Output(a), CodeRunResult::Output(b)) => a.alike(b),
            (CodeRunResult::Failure(a), CodeRunResult::Failure(b)) => a == b,
            _ => false,
        }
    }

    /// An output is a single value or a well-formed array.
    pub open spec fn wf(self) -> bool {
        self matches CodeRunResult::Output(v) ==> v.wf() && !(v is Tuple)
    }
}

impl Clone for CodeRunResult {
    fn clone(&self) -> (r: Self)
        ensures
            r.alike(*self),
            self.wf() ==> r.wf(),
    {
        match self {
            CodeRunResult::Output(v) => CodeRunResult::Output(v.clone()),
            CodeRunResult::Failure(e) => CodeRunResult::Failure(e.clone()),
        }
    }
}

impl Clone for CodeRun {
    fn clone(&self) -> (r: Self)
        ensures
            r.alike(*self),
            self.wf() ==> r.wf(),
    {
        CodeRun {
            formatted_code_string: clone_opt_string(&self.formatted_code_string),
            std_out: clone_opt_string(&self.std_out),
            std_err: clone_opt_string(&self.std_err),
            cells_accessed: clone_rects(&self.cells_accessed),
            result: self.result.clone(),
            return_type: clone_opt_string(&self.return_type),
            line_number: self.line_number,
            output_type: clone_opt_string(&self.output_type),
            spill_error: self.spill_error,
            last_modified: self.last_modified,
        }
    }
}

impl CodeRun {
    /// Both runs record the same outcome.
    pub open spec fn alike(self, other: CodeRun) -> bool {
        &&& self.formatted_code_string == other.formatted_code_string
        &&& self.std_out == other.std_out
        &&& self.std_err == other.std_err
        &&& self.cells_accessed@ == other.cells_accessed@
        &&& self.result.alike(other.result)
        &&& self.return_type == other.return_type
        &&& self.line_number == other.line_number
        &&& self.output_type == other.output_type
        &&& self.spill_error == other.spill_error
        &&& self.last_modified == other.last_modified
    }

    /// The arrays of the result are well formed.
    pub open spec fn wf(self) -> bool {
        self.result.wf()
    }

    /// Whether the output is a single value or a well-formed array.
    pub fn is_wf(&self) -> (b: bool)
        ensures
            b == self.wf(),
    {
        match &self.result {
            CodeRunResult::Output(Value::Tuple(_)) => false,
            CodeRunResult::Output(v) => v.is_wf(),
            CodeRunResult::Failure(_) => true,
        }
    }

    /// The size of what the run returned: that of the array where it is one,
    /// a single cell otherwise.
    pub open spec fn spec_output_size(self) -> ArraySize {
        match self.result {
            CodeRunResult::Output(Value::Array(a)) => a.spec_size(),
            _ => ArraySize { w: 1, h: 1 },
        }
    }

    /// The cells that the output occupies when the run sits at `pos`: the
    /// rectangle of the output's size, cut off at the last column and row,
    /// or `pos` alone while the output is held back.
    pub open spec fn spec_output_rect(self, pos: Pos) -> Rect {
        if self.spill_error {
            Rect { min: pos, max: pos }
        } else {
            Rect {
                min: pos,
                max: Pos {
                    x: far_edge(pos.x, self.spec_output_size().w),
                    y: far_edge(pos.y, self.spec_output_size().h),
                },
            }
        }
    }

    /// The value that the output shows `x` columns and `y` rows from its
    /// corner; nothing while the output is held back, after an error, and
    /// outside the output.
    pub open spec fn spec_output_value(self, x: int, y: int) -> Option<CellValue> {
        if self.spill_error {
            None
        } else {
            match self.result {
                CodeRunResult::Output(Value::Single(v)) => if x == 0 && y == 0 {
                    Some(v)
                } else {
                    None
                },
                CodeRunResult::Output(Value::Array(a)) => if 0 <= x < a.spec_size().w && 0 <= y
                    < a.spec_size().h {
                    Some(a.cell(x, y))
                } else {
                    None
                },
                _ => None,
            }
        }
    }

    /// Whether every number of the output prints as itself.
    pub fn is_result_storable(&self) -> (b: bool)
        ensures
            b == crate::grid::file::current::result_storable(self.result),
    {
        match &self.result {
            CodeRunResult::Output(Value::Single(v)) => v.is_wf(),
            CodeRunResult::Output(Value::Array(a)) => a.is_all_wf(),
            _ => true,
        }
    }

    pub fn has_spill_error(&self) -> (b: bool)
        ensures
            b == self.spill_error,
    {
        self.spill_error
    }

    pub fn output_size(&self) -> (r: ArraySize)
        ensures
            r == self.spec_output_size(),
    {
        match &self.result {
            CodeRunResult::Output(Value::Array(a)) => a.size(),
            _ => ArraySize { w: 1, h: 1 },
        }
    }

    pub fn output_rect(&self, pos: Pos) -> (r: Rect)
        requires
            self.wf(),
        ensures
            r == self.spec_output_rect(pos),
            r.wf(),
    {
        if self.spill_error {
            Rect::single_pos(pos)
        } else {
            let size = self.output_size();
            Rect {
                min: pos,
                max: Pos { x: far_edge_exec(pos.x, size.w), y: far_edge_exec(pos.y, size.h) },
            }
        }
    }

    pub fn get_output_value(&self, x: u32, y: u32) -> (r: Option<CellValue>)
        requires
            self.wf(),
        ensures
            r == self.spec_output_value(x as int, y as int),
    {
        if self.spill_error {
            return None;
        }
        match &self.result {
            CodeRunResult::Output(Value::Single(v)) => if x == 0 && y == 0 {
                Some(v.clone())
            } else {
                None
            },
            CodeRunResult::Output(Value::Array(a)) => match a.get(x, y) {
                Ok(v) => Some(v.clone()),
                Err(_) => None,
            },
            _ => None,
        }
    }
}

/// The last coordinate of `len` cells that start at `start`, or the greatest
/// coordinate where they would reach past it.
pub open spec fn far_edge(start: i64, len: u32) -> i64 {
    if len == 0 {
        start
    } else if start + len - 1 > i64::MAX {
        i64::MAX
    } else {
        (start + len - 1) as i64
    }
}

pub(crate) fn far_edge_exec(start: i64, len: u32) -> (r: i64)
    ensures
        r == far_edge(start, len),
        len > 0 ==> r >= start,
{
    if len == 0 {
        start
    } else {
        let extra: i64 = (len - 1) as i64;
        if start > i64::MAX - extra {
            i64::MAX
        } else {
            start + extra
        }
    }
}

} // verus!
