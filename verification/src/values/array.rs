//! Rectangular arrays of cell values.

use crate::values::buffer::{buffer_cells, CellBuffer};
use crate::values::{Axis, CellValue, CodeResult, RunError, RunErrorMsg, Spanned};
use vstd::prelude::*;
use vstd::string::StringExecFns;

verus! {

/// Width and height of an array; neither is zero.
#[derive(Clone, Copy, Debug, PartialEq, Eq, Hash, Structural)]
pub struct ArraySize {
    pub w: u32,
    pub h: u32,
}

impl ArraySize {
    pub open spec fn wf(self) -> bool {
        self.w > 0 && self.h > 0
    }

    /// The number of cells.
    pub open spec fn spec_len(self) -> int {
        self.w * self.h
    }

    /// The place of cell `(x, y)` in row-major order.
    pub open spec fn flat_index(self, x: int, y: int) -> int {
        x + y * self.w
    }

    /// The size of a single cell.
    pub fn one() -> (r: ArraySize)
        ensures
            r == (ArraySize { w: 1, h: 1 }),
    {
        ArraySize { w: 1, h: 1 }
    }

    /// The size with the given width and height, unless one of them is zero.
    pub fn new(w: u32, h: u32) -> (r: Option<ArraySize>)
        ensures
            r == if w > 0 && h > 0 {
                Some(ArraySize { w, h })
            } else {
                None::<ArraySize>
            },
    {
        if w > 0 && h > 0 {
            Some(ArraySize { w, h })
        } else {
            None
        }
    }

    /// The number of cells.
    pub fn len(&self) -> (n: u64)
        ensures
            n == self.spec_len(),
    {
        assert(self.w * self.h <= 0xffff_ffff * 0xffff_ffff) by (nonlinear_arith)
            requires
                self.w <= 0xffff_ffff,
                self.h <= 0xffff_ffff,
        ;
        (self.w as u64) * (self.h as u64)
    }

    /// The length along one axis.
    pub fn along(&self, axis: Axis) -> (n: u32)
        ensures
            n == match axis {
                Axis::X => self.w,
                Axis::Y => self.h,
            },
    {
        match axis {
            Axis::X => self.w,
            Axis::Y => self.h,
        }
    }
}

/// Cell `(x, y)` of a row-major sequence is inside the sequence.
pub proof fn lemma_flat_index_in_range(size: ArraySize, x: int, y: int)
    requires
        0 <= x < size.w,
        0 <= y < size.h,
    ensures
        0 <= size.flat_index(x, y) < size.spec_len(),
{
    assert(0 <= x + y * size.w < size.w * size.h) by (nonlinear_arith)
        requires
            0 <= x < size.w,
            0 <= y < size.h,
    ;
}

/// A rectangular array of cell values, stored row by row.
#[derive(Debug, PartialEq, Eq)]
pub struct Array {
    size: ArraySize,
    values: CellBuffer,
}

impl Clone for Array {
    fn clone(&self) -> (r: Self)
        ensures
            r.spec_size() == self.spec_size(),
            r.cells() == self.cells(),
            self.wf() ==> r.wf(),
    {
        Array { size: self.size, values: self.values.clone() }
    }
}

impl Array {
    /// Both arrays have the same size and the same cells.
    pub open spec fn alike(self, other: Array) -> bool {
        self.spec_size() == other.spec_size() && self.cells() == other.cells()
    }

    /// Width and height.
    pub closed spec fn spec_size(&self) -> ArraySize {
        self.size
    }

    /// The cells, row by row.
    pub closed spec fn cells(&self) -> Seq<CellValue> {
        buffer_cells(self.values)
    }

    /// The size is positive and the cells fill it exactly.
    pub open spec fn wf(self) -> bool {
        self.spec_size().wf() && self.cells().len() == self.spec_size().spec_len()
    }

    /// The cell in column `x` of row `y`.
    pub open spec fn cell(self, x: int, y: int) -> CellValue {
        self.cells()[self.spec_size().flat_index(x, y)]
    }

    /// The cell in column `x` of row `y`, the array repeated in both
    /// directions.
    pub open spec fn cell_cyclic(self, x: int, y: int) -> CellValue {
        self.cell(x % (self.spec_size().w as int), y % (self.spec_size().h as int))
    }

    #[verifier::when_used_as_spec(spec_size)]
    pub fn size(&self) -> (r: ArraySize)
        ensures
            r == self.spec_size(),
    {
        self.size
    }

    pub fn width(&self) -> (w: u32)
        ensures
            w == self.spec_size().w,
    {
        self.size.w
    }

    pub fn height(&self) -> (h: u32)
        ensures
            h == self.spec_size().h,
    {
        self.size.h
    }

    /// The array of one cell.
    pub fn from_cell(value: CellValue) -> (r: Array)
        ensures
            r.wf(),
            r.spec_size() == (ArraySize { w: 1, h: 1 }),
            r.cells() == seq![value],
    {
        let mut values = CellBuffer::new();
        values.push(value);
        Array { size: ArraySize { w: 1, h: 1 }, values }
    }

    /// The array of the given size whose cells are `values`, row by row.
    /// Fails where the number of cells is not that of the size.
    pub fn new_row_major(size: ArraySize, values: Vec<CellValue>) -> (r: Result<Array, RunError>)
        ensures
            size.wf() && values@.len() == size.spec_len() ==> (r matches Ok(a) && a.wf()
                && a.spec_size() == size && a.cells() == values@),
            !(size.wf() && values@.len() == size.spec_len()) ==> r == Err::<Array, RunError>(
                RunErrorMsg::ArraySizeMismatch.spec_without_span(),
            ),
    {
        if size.w == 0 || size.h == 0 || values.len() as u64 != size.len() {
            return Err(RunErrorMsg::ArraySizeMismatch.without_span());
        }
        let mut buffer = CellBuffer::new();
        let mut values = values;
        let ghost all = values@;
        let mut i: usize = 0;
        while i < values.len()
            invariant
                i <= values.len(),
                values@.len() == all.len(),
                forall|j: int| i <= j < all.len() ==> values@[j] == all[j],
                buffer_cells(buffer) == all.take(i as int),
            decreases values.len() - i,
        {
            let mut taken = CellValue::Blank;
            std::mem::swap(&mut taken, &mut values[i]);
            buffer.push(taken);
            i += 1;
            assert(all.take(i as int) == all.take(i - 1).push(all[i - 1]));
        }
        assert(all.take(all.len() as int) == all);
        Ok(Array { size, values: buffer })
    }

    /// The cell in column `x` of row `y`.
    pub fn get(&self, x: u32, y: u32) -> (r: Result<&CellValue, RunErrorMsg>)
        requires
            self.wf(),
        ensures
            x < self.spec_size().w && y < self.spec_size().h ==> (r matches Ok(v) && *v
                == self.cell(x as int, y as int)),
            !(x < self.spec_size().w && y < self.spec_size().h) ==> r == Err::<
                &CellValue,
                RunErrorMsg,
            >(RunErrorMsg::IndexOutOfBounds),
    {
        if x < self.size.w && y < self.size.h {
            proof {
                lemma_flat_index_in_range(self.size, x as int, y as int);
            }
            assert(y * self.size.w <= 0xffff_ffff * 0xffff_ffff) by (nonlinear_arith)
                requires
                    y <= 0xffff_ffff,
                    self.size.w <= 0xffff_ffff,
            ;
            let n = self.values.len();
            let i = (x as u64) + (y as u64) * (self.size.w as u64);
            Ok(self.values.get(i as usize))
        } else {
            Err(RunErrorMsg::IndexOutOfBounds)
        }
    }

    /// The cell in column `x` of row `y`, the array repeated in both
    /// directions as often as needed.
    pub fn get_cyclic(&self, x: u32, y: u32) -> (v: &CellValue)
        requires
            self.wf(),
        ensures
            *v == self.cell_cyclic(x as int, y as int),
    {
        let cx = x % self.size.w;
        let cy = y % self.size.h;
        proof {
            lemma_flat_index_in_range(self.size, cx as int, cy as int);
        }
        assert(cy * self.size.w <= 0xffff_ffff * 0xffff_ffff) by (nonlinear_arith)
            requires
                cy <= 0xffff_ffff,
                self.size.w <= 0xffff_ffff,
        ;
        let n = self.values.len();
        let i = (cx as u64) + (cy as u64) * (self.size.w as u64);
        self.values.get(i as usize)
    }

    /// The only cell of a one-cell array.
    pub fn cell_value(&self) -> (r: Option<&CellValue>)
        requires
            self.wf(),
        ensures
            self.spec_size() == (ArraySize { w: 1, h: 1 }) ==> (r matches Some(v) && *v
                == self.cells()[0]),
            self.spec_size() != (ArraySize { w: 1, h: 1 }) ==> r is None,
    {
        if self.size.w == 1 && self.size.h == 1 {
            Some(self.values.get(0))
        } else {
            None
        }
    }

    /// Whether the array has a width and a height and holds as many cells
    /// as they ask for.
    pub fn is_wf(&self) -> (b: bool)
        ensures
            b == self.wf(),
    {
        if self.size.w == 0 || self.size.h == 0 {
            return false;
        }
        self.values.len() as u64 == self.size.len()
    }

    /// Whether every number in the array prints as itself.
    pub fn is_all_wf(&self) -> (b: bool)
        ensures
            b == (forall|i: int| 0 <= i < self.cells().len() ==> (#[trigger] self.cells()[i]).wf()),
    {
        let n = self.values.len();
        let mut i: usize = 0;
        while i < n
            invariant
                i <= n,
                n == self.cells().len(),
                forall|j: int| 0 <= j < i ==> (#[trigger] self.cells()[j]).wf(),
            decreases n - i,
        {
            if !self.values.get(i).is_wf() {
                assert(!self.cells()[i as int].wf());
                return false;
            }
            i += 1;
        }
        true
    }

    /// The number of cells.
    pub fn cell_count(&self) -> (n: usize)
        ensures
            n == self.cells().len(),
    {
        self.values.len()
    }

    /// The cell at place `i` in row-major order.
    pub fn cell_at(&self, i: usize) -> (v: &CellValue)
        requires
            i < self.cells().len(),
        ensures
            *v == self.cells()[i as int],
    {
        self.values.get(i)
    }

    /// The cells row by row, as clones.
    pub fn to_vec(&self) -> (r: Vec<CellValue>)
        ensures
            r@ == self.cells(),
    {
        let mut out: Vec<CellValue> = Vec::new();
        let n = self.values.len();
        let mut i: usize = 0;
        while i < n
            invariant
                i <= n,
                n == self.cells().len(),
                out@ == self.cells().take(i as int),
            decreases n - i,
        {
            out.push(self.values.get(i).clone());
            i += 1;
            assert(self.cells().take(i as int) == self.cells().take(i - 1).push(
                self.cells()[i - 1],
            ));
        }
        assert(self.cells().take(n as int) == self.cells());
        out
    }
}

/// What a formula yields: one value, an array, or several arrays.
#[derive(Debug, PartialEq, Eq)]
pub enum Value {
    Single(CellValue),
    Array(Array),
    Tuple(Vec<Array>),
}

impl Clone for Value {
    fn clone(&self) -> (r: Self)
        ensures
            r.alike(*self),
            self.wf() ==> r.wf(),
    {
        match self {
            Value::Single(v) => Value::Single(v.clone()),
            Value::Array(a) => Value::Array(a.clone()),
            Value::Tuple(arrays) => {
                let mut out: Vec<Array> = Vec::new();
                let mut i: usize = 0;
                while i < arrays.len()
                    invariant
                        i <= arrays@.len(),
                        out@.len() == i,
                        forall|j: int| 0 <= j < i ==> (#[trigger] out@[j]).alike(arrays@[j]),
                        forall|j: int| 0 <= j < i && arrays@[j].wf() ==> (#[trigger] out@[j]).wf(),
                    decreases arrays.len() - i,
                {
                    out.push(arrays[i].clone());
                    i += 1;
                }
                Value::Tuple(out)
            },
        }
    }
}

/// Whether every array of the list is well formed.
pub fn is_arrays_wf(arrays: &Vec<Array>) -> (b: bool)
    ensures
        b == forall|i: int| 0 <= i < arrays@.len() ==> (#[trigger] arrays@[i]).wf(),
{
    let mut i: usize = 0;
    while i < arrays.len()
        invariant
            i <= arrays@.len(),
            forall|k: int| 0 <= k < i ==> (#[trigger] arrays@[k]).wf(),
        decreases arrays.len() - i,
    {
        if !arrays[i].is_wf() {
            assert(!arrays@[i as int].wf());
            return false;
        }
        i += 1;
    }
    true
}

impl Value {
    /// Both values are of one kind and hold the same cells.
    pub open spec fn alike(self, other: Value) -> bool {
        match (self, other) {
            (Value::Single(a), Value::Single(b)) => a == b,
            (Value::Array(a), Value::Array(b)) => a.alike(b),
            (Value::Tuple(a), Value::Tuple(b)) => a@.len() == b@.len() && forall|i: int|
                0 <= i < a@.len() ==> (#[trigger] a@[i]).alike(b@[i]),
            _ => false,
        }
    }

    /// Every array in the value is well formed.
    pub open spec fn wf(self) -> bool {
        match self {
            Value::Single(_) => true,
            Value::Array(a) => a.wf(),
            Value::Tuple(arrays) => forall|i: int| 0 <= i < arrays@.len() ==> (#[trigger] arrays@[i]).wf(),
        }
    }

    /// Whether every array in the value is well formed.
    pub fn is_wf(&self) -> (b: bool)
        ensures
            b == self.wf(),
    {
        match self {
            Value::Single(_) => true,
            Value::Array(a) => a.is_wf(),
            Value::Tuple(arrays) => is_arrays_wf(arrays),
        }
    }

    /// Width and height, a value that is no array counting as one cell.
    pub open spec fn spec_size(self) -> ArraySize {
        match self {
            Value::Array(a) => a.spec_size(),
            _ => ArraySize { w: 1, h: 1 },
        }
    }

    /// The cell that the value offers at `(x, y)` when it is spread over a
    /// larger shape; a tuple offers none.
    pub open spec fn spec_get(self, x: int, y: int) -> Option<CellValue> {
        match self {
            Value::Single(v) => Some(v),
            Value::Array(a) => Some(a.cell_cyclic(x, y)),
            Value::Tuple(_) => None,
        }
    }

    /// The value as a single cell, where it is one.
    pub open spec fn spec_cell_value(self) -> Option<CellValue> {
        match self {
            Value::Single(v) => Some(v),
            Value::Array(a) => if a.spec_size() == (ArraySize { w: 1, h: 1 }) {
                Some(a.cells()[0])
            } else {
                None
            },
            Value::Tuple(_) => None,
        }
    }

    /// What the value is called in an error.
    pub open spec fn kind_name(self) -> Seq<char> {
        match self {
            Value::Single(_) => "single value"@,
            Value::Array(_) => "array"@,
            Value::Tuple(_) => "tuple"@,
        }
    }

    pub fn size(&self) -> (r: ArraySize)
        ensures
            r == self.spec_size(),
    {
        match self {
            Value::Array(a) => a.size(),
            _ => ArraySize { w: 1, h: 1 },
        }
    }

    /// The value as a single cell. An array of more than one cell, and a
    /// tuple, are refused.
    pub fn cell_value(&self) -> (r: Result<&CellValue, RunErrorMsg>)
        requires
            self.wf(),
        ensures
            self.spec_cell_value() matches Some(v) ==> (r matches Ok(c) && *c == v),
            self.spec_cell_value() is None ==> (r matches Err(e) && e.is_expected(
                "single value"@,
                self.kind_name(),
            )),
    {
        match self {
            Value::Single(v) => Ok(v),
            Value::Array(a) => match a.cell_value() {
                Some(v) => Ok(v),
                None => Err(
                    RunErrorMsg::Expected {
                        expected: String::from_str("single value"),
                        got: String::from_str("array"),
                    },
                ),
            },
            Value::Tuple(_) => Err(
                RunErrorMsg::Expected {
                    expected: String::from_str("single value"),
                    got: String::from_str("tuple"),
                },
            ),
        }
    }

    /// The cell offered at `(x, y)`: the value itself where it is single, the
    /// array's cell, repeated as needed, where it is an array.
    pub fn get(&self, x: u32, y: u32) -> (r: Result<&CellValue, RunErrorMsg>)
        requires
            self.wf(),
        ensures
            self.spec_get(x as int, y as int) matches Some(v) ==> (r matches Ok(c) && *c == v),
            self.spec_get(x as int, y as int) is None ==> (r matches Err(e) && e.is_expected(
                "array"@,
                self.kind_name(),
            )),
    {
        match self {
            Value::Single(v) => Ok(v),
            Value::Array(a) => Ok(a.get_cyclic(x, y)),
            Value::Tuple(_) => Err(
                RunErrorMsg::Expected {
                    expected: String::from_str("array"),
                    got: String::from_str("tuple"),
                },
            ),
        }
    }
}

/// The length of a value along an axis; a value that is no array counts as
/// one cell.
pub open spec fn len_along(value: Value, axis: Axis) -> int {
    match axis {
        Axis::X => value.spec_size().w as int,
        Axis::Y => value.spec_size().h as int,
    }
}

/// Every operand's length along the axis divides `l`, which is positive.
pub open spec fn is_common_len(operands: Seq<Spanned<Value>>, axis: Axis, l: int) -> bool {
    l > 0 && forall|i: int|
        0 <= i < operands.len() ==> l % len_along((#[trigger] operands[i]).inner, axis) == 0
}

/// `l` is the smallest length that every operand's length divides.
pub open spec fn is_least_common_len(operands: Seq<Spanned<Value>>, axis: Axis, l: int) -> bool {
    is_common_len(operands, axis, l) && forall|m: int|
        0 < m < l ==> !#[trigger] is_common_len(operands, axis, m)
}

/// No length that fits the width of an array is one that every operand's
/// length divides.
pub open spec fn no_common_len(operands: Seq<Spanned<Value>>, axis: Axis) -> bool {
    forall|m: int| 0 < m <= u32::MAX ==> !#[trigger] is_common_len(operands, axis, m)
}

/// `m` is the greatest length of an operand along the axis, or one where
/// there is no operand.
pub open spec fn is_longest(operands: Seq<Spanned<Value>>, axis: Axis, m: int) -> bool {
    &&& m >= 1
    &&& forall|i: int| 0 <= i < operands.len() ==> len_along((#[trigger] operands[i]).inner, axis) <= m
    &&& m == 1 || exists|i: int|
        0 <= i < operands.len() && len_along((#[trigger] operands[i]).inner, axis) == m
}

/// `i` is the place of the first operand whose length does not divide `m`.
pub open spec fn is_first_misfit(operands: Seq<Spanned<Value>>, axis: Axis, m: int, i: int) -> bool {
    &&& 0 <= i < operands.len()
    &&& m % len_along(operands[i].inner, axis) != 0
    &&& forall|j: int| 0 <= j < i ==> m % len_along((#[trigger] operands[j]).inner, axis) == 0
}

/// Every operand is a well-formed value.
pub open spec fn operands_wf(operands: Seq<Spanned<Value>>) -> bool {
    forall|i: int| 0 <= i < operands.len() ==> (#[trigger] operands[i]).inner.wf()
}

/// The first operand whose length along the axis does not divide `l`.
fn first_misfit(operands: &Vec<Spanned<Value>>, axis: Axis, l: u32) -> (r: Option<usize>)
    requires
        operands_wf(operands@),
        l > 0,
    ensures
        match r {
            Some(i) => is_first_misfit(operands@, axis, l as int, i as int),
            None => is_common_len(operands@, axis, l as int),
        },
{
    let mut i: usize = 0;
    while i < operands.len()
        invariant
            i <= operands@.len(),
            operands_wf(operands@),
            forall|j: int|
                0 <= j < i ==> (l as int) % len_along((#[trigger] operands@[j]).inner, axis) == 0,
        decreases operands.len() - i,
    {
        let len = operands[i].inner.size().along(axis);
        proof {
            lemma_value_size_positive(operands@[i as int].inner);
        }
        if l % len != 0 {
            return Some(i);
        }
        i += 1;
    }
    None
}

/// A well-formed value has a positive width and height.
pub proof fn lemma_value_size_positive(value: Value)
    requires
        value.wf(),
    ensures
        value.spec_size().w > 0,
        value.spec_size().h > 0,
{
}

/// `e` is the error for operands that cannot be brought to one length
/// along the axis: it names the greatest length among the operands as
/// expected and the length of the first operand that does not divide it as
/// found, at that operand's place in the source.
pub open spec fn axis_error(operands: Seq<Spanned<Value>>, axis: Axis, e: RunError) -> bool {
    exists|m: int, i: int|
        #![trigger is_first_misfit(operands, axis, m, i)]
        is_longest(operands, axis, m) && is_first_misfit(operands, axis, m, i) && e
            == (RunErrorMsg::ArrayAxisMismatch {
            axis,
            expected: m as u32,
            got: len_along(operands[i].inner, axis) as u32,
        }).spec_with_span(operands[i].span)
}

/// `e` is the error for operands that cannot be brought to one shape: that
/// of their widths, or else that of their heights.
pub open spec fn size_error(operands: Seq<Spanned<Value>>, e: RunError) -> bool {
    ||| (no_common_len(operands, Axis::X) && axis_error(operands, Axis::X, e))
    ||| (!no_common_len(operands, Axis::X) && no_common_len(operands, Axis::Y) && axis_error(
        operands,
        Axis::Y,
        e,
    ))
}

impl Value {
    /// The length that operands are brought to along one axis: the smallest
    /// length that the length of every operand divides. Operands that are
    /// shorter are repeated. Fails where no such length fits the width of an
    /// array; the error then names the greatest length among the operands as
    /// expected and the length of the first operand that does not divide it
    /// as found, at that operand's place in the source.
    pub fn common_len(operands: &Vec<Spanned<Value>>, axis: Axis) -> (r: CodeResult<u32>)
        requires
            operands_wf(operands@),
        ensures
            match r {
                Ok(l) => is_least_common_len(operands@, axis, l as int),
                Err(e) => no_common_len(operands@, axis) && axis_error(operands@, axis, e),
            },
    {
        let mut longest: u32 = 1;
        let mut i: usize = 0;
        while i < operands.len()
            invariant
                i <= operands@.len(),
                operands_wf(operands@),
                is_longest(operands@.take(i as int), axis, longest as int),
            decreases operands.len() - i,
        {
            let len = operands[i].inner.size().along(axis);
            let ghost before = operands@.take(i as int);
            let ghost after = operands@.take(i + 1);
            let ghost old_longest = longest;
            if len > longest {
                longest = len;
            }
            proof {
                assert(after[i as int] == operands@[i as int]);
                assert forall|j: int| 0 <= j < after.len() implies len_along(
                    (#[trigger] after[j]).inner,
                    axis,
                ) <= longest by {
                    if j < i {
                        assert(after[j] == before[j]);
                    }
                }
                if longest != 1 {
                    if len > old_longest {
                        assert(len_along(after[i as int].inner, axis) == longest);
                    } else {
                        let k = choose|k: int|
                            0 <= k < before.len() && len_along((#[trigger] before[k]).inner, axis)
                                == old_longest;
                        assert(after[k] == before[k]);
                    }
                }
            }
            i += 1;
        }
        assert(operands@.take(operands@.len() as int) == operands@);
        let mut k: u64 = 1;
        loop
            invariant
                k >= 1,
                operands_wf(operands@),
                is_longest(operands@, axis, longest as int),
                (k - 1) * longest <= u32::MAX,
                forall|j: int| 1 <= j < k ==> !#[trigger] is_common_len(operands@, axis, j * longest),
            decreases u32::MAX - (k - 1) * longest,
        {
            assert(k <= 0x1_0000_0000 && k * longest <= 0x1_0000_0000 * 0xffff_ffff && k * longest
                >= 1) by (nonlinear_arith)
                requires
                    (k - 1) * longest <= 0xffff_ffff,
                    1 <= longest <= 0xffff_ffff,
                    k >= 1,
            ;
            let candidate: u64 = k * (longest as u64);
            if candidate > u32::MAX as u64 {
                proof {
                    assert forall|m: int| 0 < m <= u32::MAX implies !#[trigger] is_common_len(
                        operands@,
                        axis,
                        m,
                    ) by {
                        if is_common_len(operands@, axis, m) {
                            lemma_multiple_of_longest(operands@, axis, longest as int, m);
                            let j = m / (longest as int);
                            assert(m == j * longest);
                            assert(j < k) by (nonlinear_arith)
                                requires
                                    j * longest <= u32::MAX,
                                    k * longest > u32::MAX,
                                    longest >= 1,
                            ;
                            assert(j >= 1) by (nonlinear_arith)
                                requires
                                    m == j * longest,
                                    m > 0,
                                    longest >= 1,
                            ;
                        }
                    }
                }
                match first_misfit(operands, axis, longest) {
                    Some(i) => {
                        let got = operands[i].inner.size().along(axis);
                        return Err(
                            (RunErrorMsg::ArrayAxisMismatch {
                                axis,
                                expected: longest,
                                got,
                            }).with_span(operands[i].span),
                        );
                    },
                    None => {
                        proof {
                            assert(is_common_len(operands@, axis, 1 * longest));
                            assert(false);
                        }
                        return Ok(longest);
                    },
                }
            }
            let candidate = candidate as u32;
            if first_misfit(operands, axis, candidate).is_none() {
                proof {
                    assert forall|m: int| 0 < m < candidate implies !#[trigger] is_common_len(
                        operands@,
                        axis,
                        m,
                    ) by {
                        if is_common_len(operands@, axis, m) {
                            lemma_multiple_of_longest(operands@, axis, longest as int, m);
                            let j = m / (longest as int);
                            assert(m == j * longest);
                            assert(j < k) by (nonlinear_arith)
                                requires
                                    j * longest < k * longest,
                                    longest >= 1,
                            ;
                            assert(j >= 1) by (nonlinear_arith)
                                requires
                                    m == j * longest,
                                    m > 0,
                                    longest >= 1,
                            ;
                        }
                    }
                }
                return Ok(candidate);
            }
            proof {
                assert(!is_common_len(operands@, axis, k * longest));
                assert((k - 1) * longest + longest == k * longest) by (nonlinear_arith);
            }
            k += 1;
        }
    }

    /// The shape that operands are brought to: the smallest width and height
    /// that the width and height of every operand divide.
    pub fn common_array_size(operands: &Vec<Spanned<Value>>) -> (r: CodeResult<ArraySize>)
        requires
            operands_wf(operands@),
        ensures
            match r {
                Ok(size) => size.wf() && is_least_common_len(operands@, Axis::X, size.w as int)
                    && is_least_common_len(operands@, Axis::Y, size.h as int),
                Err(e) => size_error(operands@, e),
            },
    {
        let w = Value::common_len(operands, Axis::X)?;
        proof {
            assert(is_common_len(operands@, Axis::X, w as int));
        }
        let h = Value::common_len(operands, Axis::Y)?;
        Ok(ArraySize { w, h })
    }
}

/// A length that every operand's length divides is a multiple of the
/// greatest of those lengths.
proof fn lemma_multiple_of_longest(operands: Seq<Spanned<Value>>, axis: Axis, longest: int, m: int)
    requires
        is_longest(operands, axis, longest),
        is_common_len(operands, axis, m),
    ensures
        m == (m / longest) * longest,
{
    if longest == 1 {
        assert(m == (m / 1) * 1);
    } else {
        let i = choose|i: int|
            0 <= i < operands.len() && len_along((#[trigger] operands[i]).inner, axis) == longest;
        assert(m % longest == 0);
        vstd::arithmetic::div_mod::lemma_fundamental_div_mod(m, longest);
        assert(longest * (m / longest) == (m / longest) * longest) by (nonlinear_arith);
    }
}

/// The least common length is unique.
pub proof fn lemma_least_common_len_unique(
    operands: Seq<Spanned<Value>>,
    axis: Axis,
    a: int,
    b: int,
)
    requires
        is_least_common_len(operands, axis, a),
        is_least_common_len(operands, axis, b),
    ensures
        a == b,
{
    if a < b {
        assert(!is_common_len(operands, axis, a));
    }
    if b < a {
        assert(!is_common_len(operands, axis, b));
    }
}

} // verus!
