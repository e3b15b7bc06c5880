//! Calls of the functions on text.

use crate::formulas::ctx::{
    applied, cells_at, fails_first_at, no_common_size, no_tuple, tuple_error, yields_at, Ctx,
};
use crate::formulas::functions::args::{
    coerce_integer, coerce_optional_integer, coerce_text, count_value, integer_arg, mismatch,
    optional_integer_arg, text_arg, Outcome,
};
use crate::formulas::functions::string::{
    array_to_text, clean, exact, left, leftb, len, lenb, lower, proper, right, rightb,
    spec_array_to_text, spec_clean, spec_count, spec_left, spec_leftb, spec_proper, spec_right,
    spec_rightb, unichar, unicode, upper, StringFunction,
};
use crate::text::{lowercase_text, push_char, uppercase_text};
use crate::values::array::{
    is_least_common_len, operands_wf, size_error, Array, ArraySize, Value,
};
use crate::values::repr::joined;
use crate::values::{Axis, CellValue, CodeResult, RunError, RunErrorMsg, Span, Spanned};
use vstd::prelude::*;
use vstd::string::StringExecFns;
use vstd::utf8::{encode_utf8, is_scalar};

verus! {

/// What a function that cuts a text gives for the text and the count.
pub open spec fn cut_outcome(function: StringFunction, s: Seq<char>, n: nat) -> Outcome {
    match function {
        StringFunction::Left => Outcome::Text(spec_left(s, n)),
        StringFunction::Right => Outcome::Text(spec_right(s, n)),
        StringFunction::Leftb => Outcome::Encoded(spec_leftb(encode_utf8(s), n)),
        _ => Outcome::Encoded(spec_rightb(encode_utf8(s), n)),
    }
}

/// What a function of one text gives for the text.
pub open spec fn text_outcome(function: StringFunction, span: Span, s: Seq<char>) -> Outcome {
    match function {
        StringFunction::Len => Outcome::Number(s.len() as int),
        StringFunction::Lenb => Outcome::Number(encode_utf8(s).len() as int),
        StringFunction::Unicode | StringFunction::Code => if s.len() > 0 {
            Outcome::Number(s[0] as u32 as int)
        } else {
            Outcome::Invalid(span)
        },
        StringFunction::Clean => Outcome::Text(spec_clean(s)),
        StringFunction::Lower => Outcome::Text(lowercase_text(s)),
        StringFunction::Upper => Outcome::Text(uppercase_text(s)),
        _ => Outcome::Text(spec_proper(s)),
    }
}

/// What `UNICHAR` gives for a number: the character with that code point,
/// where there is one and the number is not zero.
pub open spec fn char_outcome(span: Span, v: i64) -> Outcome {
    if 0 < v <= u32::MAX && is_scalar(v as u32) {
        Outcome::Text(seq![v as u32 as char])
    } else {
        Outcome::Invalid(span)
    }
}

/// The texts that the cells are taken for, one after the other; the failure
/// of the first cell that cannot be taken for a text.
pub open spec fn texts_of(cells: Seq<Spanned<CellValue>>) -> Result<Seq<char>, Outcome>
    decreases cells.len(),
{
    if cells.len() == 0 {
        Ok(Seq::empty())
    } else {
        match texts_of(cells.drop_last()) {
            Err(o) => Err(o),
            Ok(head) => match text_arg(cells.last()) {
                Err(o) => Err(o),
                Ok(tail) => Ok(head + tail),
            },
        }
    }
}

/// What `ARRAYTOTEXT` gives for an array with the given text for reading and
/// the given spelling.
pub open spec fn array_outcome(
    shown: Seq<char>,
    spelled: Seq<char>,
    format: Option<Spanned<i64>>,
) -> Outcome {
    match spec_array_to_text(shown, spelled, format) {
        Some(text) => Outcome::Text(text),
        None => Outcome::Invalid(format.unwrap().span),
    }
}

/// What a call of `function` on single cells comes to. A function that
/// takes an array takes the first cell as an array of one cell.
pub open spec fn cell_outcome(
    function: StringFunction,
    span: Span,
    cells: Seq<Spanned<CellValue>>,
) -> Outcome {
    if !function.takes(cells.len()) {
        Outcome::BadCount(span)
    } else {
        match function {
            StringFunction::ArrayToText => match optional_integer_arg(cells, 1) {
                Err(o) => o,
                Ok(format) => array_outcome(
                    cells[0].inner.display_text(),
                    "{"@ + cells[0].inner.spec_repr() + "}"@,
                    format,
                ),
            },
            StringFunction::Concatenate | StringFunction::Concat => match texts_of(cells) {
                Err(o) => o,
                Ok(text) => Outcome::Text(text),
            },
            StringFunction::Left
            | StringFunction::Leftb
            | StringFunction::Right
            | StringFunction::Rightb => match text_arg(cells[0]) {
                Err(o) => o,
                Ok(s) => match optional_integer_arg(cells, 1) {
                    Err(o) => o,
                    Ok(count) => match spec_count(count) {
                        Some(n) => cut_outcome(function, s, n),
                        None => Outcome::Invalid(count.unwrap().span),
                    },
                },
            },
            StringFunction::Unichar | StringFunction::Char => match integer_arg(cells[0]) {
                Err(o) => o,
                Ok(v) => char_outcome(span, v),
            },
            StringFunction::Exact => match text_arg(cells[0]) {
                Err(o) => o,
                Ok(a) => match text_arg(cells[1]) {
                    Err(o) => o,
                    Ok(b) => Outcome::Logical(a == b),
                },
            },
            _ => match text_arg(cells[0]) {
                Err(o) => o,
                Ok(s) => text_outcome(function, span, s),
            },
        }
    }
}

/// An array of one cell reads as the cell reads, and is spelled as the cell
/// is, in braces.
pub proof fn lemma_single_array(array: Array, v: CellValue)
    requires
        array.wf(),
        array.spec_size() == (ArraySize { w: 1, h: 1 }),
        array.cells() == seq![v],
    ensures
        joined(array.shown(), ", "@) == v.display_text(),
        array.spec_repr() == "{"@ + v.spec_repr() + "}"@,
{
    assert(array.shown() == seq![v.display_text()]);
    assert(array.cell(0, 0) == v);
    assert(array.row_reprs(0) == seq![v.spec_repr()]);
    assert(array.rows_reprs() == seq![v.spec_repr()]);
}

/// The texts that the cells are taken for, one after the other.
pub fn concat_cells(cells: &Vec<Spanned<CellValue>>) -> (r: CodeResult<String>)
    ensures
        match texts_of(cells@) {
            Ok(text) => (r matches Ok(t) && t@ == text),
            Err(o) => (r matches Err(e) && o.is_error(e)),
        },
{
    let mut out = String::new();
    let mut i: usize = 0;
    while i < cells.len()
        invariant
            i <= cells@.len(),
            texts_of(cells@.take(i as int)) == Ok::<Seq<char>, Outcome>(out@),
        ensures
            i == cells@.len(),
        decreases cells.len() - i,
    {
        proof {
            assert(cells@.take(i + 1).drop_last() == cells@.take(i as int));
            assert(cells@.take(i + 1).last() == cells@[i as int]);
        }
        match coerce_text(&cells[i]) {
            Ok(text) => {
                out.append(text.as_str());
            },
            Err(e) => {
                proof {
                    lemma_texts_fail(cells@, i as int);
                }
                return Err(e);
            },
        }
        i += 1;
    }
    assert(cells@.take(cells@.len() as int) == cells@);
    Ok(out)
}

/// Where the cells before place `i` can be taken for texts and the cell at
/// `i` cannot, its failure is that of all the cells.
pub proof fn lemma_texts_fail(cells: Seq<Spanned<CellValue>>, i: int)
    requires
        0 <= i < cells.len(),
        texts_of(cells.take(i)) is Ok,
        text_arg(cells[i]) is Err,
    ensures
        texts_of(cells) == Err::<Seq<char>, Outcome>(text_arg(cells[i])->Err_0),
{
    assert(cells.take(i + 1).drop_last() == cells.take(i));
    assert(cells.take(i + 1).last() == cells[i]);
    lemma_texts_fail_from(cells, i + 1, cells.len() as int);
    assert(cells.take(cells.len() as int) == cells);
}

/// A failure among the first `k` cells is the failure of the first `n`.
pub proof fn lemma_texts_fail_from(cells: Seq<Spanned<CellValue>>, k: int, n: int)
    requires
        0 <= k <= n <= cells.len(),
        texts_of(cells.take(k)) is Err,
    ensures
        texts_of(cells.take(n)) == texts_of(cells.take(k)),
    decreases n - k,
{
    if k < n {
        lemma_texts_fail_from(cells, k, n - 1);
        assert(cells.take(n).drop_last() == cells.take(n - 1));
    }
}

/// Calls `function` on single cells. A function that takes an array takes
/// the first cell as an array of one cell.
pub fn call_on_cells(function: StringFunction, span: Span, cells: &Vec<Spanned<CellValue>>) -> (r:
    CodeResult<CellValue>)
    ensures
        cell_outcome(function, span, cells@).describes(r),
{
    if !function.accepts(cells.len()) {
        return Err(RunErrorMsg::BadArgumentCount.with_span(span));
    }
    match function {
        StringFunction::ArrayToText => {
            let format = coerce_optional_integer(cells, 1)?;
            let array = Array::from_cell(cells[0].inner.clone());
            proof {
                lemma_single_array(array, cells@[0].inner);
            }
            let text = array_to_text(&array, format)?;
            Ok(CellValue::Text(text))
        },
        StringFunction::Concatenate | StringFunction::Concat => {
            let text = concat_cells(cells)?;
            Ok(CellValue::Text(text))
        },
        StringFunction::Left
        | StringFunction::Leftb
        | StringFunction::Right
        | StringFunction::Rightb => {
            let s = coerce_text(&cells[0])?;
            let count = coerce_optional_integer(cells, 1)?;
            let text = match function {
                StringFunction::Left => left(s.as_str(), count)?,
                StringFunction::Right => right(s.as_str(), count)?,
                StringFunction::Leftb => leftb(s.as_str(), count)?,
                _ => rightb(s.as_str(), count)?,
            };
            Ok(CellValue::Text(text))
        },
        StringFunction::Unichar | StringFunction::Char => {
            let v = coerce_integer(&cells[0])?;
            if v < 0 || v > 0xFFFF_FFFF {
                return Err(RunErrorMsg::InvalidArgument.with_span(span));
            }
            let c = unichar(span, v as u32)?;
            let mut text = String::new();
            push_char(&mut text, c);
            Ok(CellValue::Text(text))
        },
        StringFunction::Exact => {
            let a = coerce_text(&cells[0])?;
            let b = coerce_text(&cells[1])?;
            Ok(CellValue::Logical(exact(a.as_str(), b.as_str())))
        },
        StringFunction::Len => {
            let s = coerce_text(&cells[0])?;
            Ok(count_value(len(s.as_str()) as u128))
        },
        StringFunction::Lenb => {
            let s = coerce_text(&cells[0])?;
            Ok(count_value(lenb(s.as_str()) as u128))
        },
        StringFunction::Unicode | StringFunction::Code => {
            let s = coerce_text(&cells[0])?;
            let code = unicode(span, s.as_str())?;
            Ok(count_value(code as u128))
        },
        StringFunction::Clean => {
            let s = coerce_text(&cells[0])?;
            Ok(CellValue::Text(clean(s.as_str())))
        },
        StringFunction::Lower => {
            let s = coerce_text(&cells[0])?;
            Ok(CellValue::Text(lower(s.as_str())))
        },
        StringFunction::Upper => {
            let s = coerce_text(&cells[0])?;
            Ok(CellValue::Text(upper(s.as_str())))
        },
        StringFunction::Proper => {
            let s = coerce_text(&cells[0])?;
            Ok(CellValue::Text(proper(s.as_str())))
        },
    }
}

/// Whether a call of `function` on the cells that the operands offer at
/// `(x, y)` returns `r`.
pub open spec fn gives_at(
    function: StringFunction,
    span: Span,
    operands: Seq<Spanned<Value>>,
    x: int,
    y: int,
    r: CodeResult<CellValue>,
) -> bool {
    cell_outcome(function, span, cells_at(operands, x, y)).describes(r)
}

/// Going row by row through rows of `w` cells, `(x, y)` is the first place
/// where a call of `function` on the cells that the operands offer fails,
/// and it fails with `e`.
pub open spec fn fails_first(
    function: StringFunction,
    span: Span,
    operands: Seq<Spanned<Value>>,
    w: int,
    x: int,
    y: int,
    e: RunError,
) -> bool {
    &&& 0 <= x < w
    &&& 0 <= y
    &&& gives_at(function, span, operands, x, y, Err(e))
    &&& forall|cx: int, cy: int|
        0 <= cx < w && (0 <= cy < y || (cy == y && 0 <= cx < x)) ==> !(#[trigger] cell_outcome(
            function,
            span,
            cells_at(operands, cx, cy),
        )).fails()
}

/// Whether `r` is what a function that works on single cells returns for
/// the operands: the function applied cell by cell over the least shape that
/// all operands fit, a single value where that shape is one cell; an error
/// where there is no such shape, else where an operand is a tuple, else
/// where a call on cells fails: then that of the first call that fails,
/// going row by row.
pub open spec fn mapped(
    function: StringFunction,
    span: Span,
    operands: Seq<Spanned<Value>>,
    r: CodeResult<Value>,
) -> bool {
    match r {
        Ok(Value::Single(v)) => {
            &&& is_least_common_len(operands, Axis::X, 1)
            &&& is_least_common_len(operands, Axis::Y, 1)
            &&& no_tuple(operands)
            &&& gives_at(function, span, operands, 0, 0, Ok(v))
        },
        Ok(Value::Array(a)) => {
            &&& a.wf()
            &&& a.spec_size() != (ArraySize { w: 1, h: 1 })
            &&& is_least_common_len(operands, Axis::X, a.spec_size().w as int)
            &&& is_least_common_len(operands, Axis::Y, a.spec_size().h as int)
            &&& no_tuple(operands)
            &&& forall|x: int, y: int|
                0 <= x < a.spec_size().w && 0 <= y < a.spec_size().h ==> gives_at(
                    function,
                    span,
                    operands,
                    x,
                    y,
                    Ok(#[trigger] a.cell(x, y)),
                )
        },
        Ok(Value::Tuple(_)) => false,
        Err(e) => if no_common_size(operands) {
            size_error(operands, e)
        } else if !no_tuple(operands) {
            tuple_error(operands, e)
        } else {
            exists|w: int, x: int, y: int|
                is_least_common_len(operands, Axis::X, w) && #[trigger] fails_first(
                    function,
                    span,
                    operands,
                    w,
                    x,
                    y,
                    e,
                )
        },
    }
}

/// The cells with the place in the source that they all came from.
pub open spec fn spanned(cells: Seq<CellValue>, span: Span) -> Seq<Spanned<CellValue>> {
    Seq::new(cells.len(), |i: int| Spanned { span, inner: cells[i] })
}

/// The cells of the arrays, array by array and row by row.
pub open spec fn arrays_cells(arrays: Seq<Array>) -> Seq<CellValue>
    decreases arrays.len(),
{
    if arrays.len() == 0 {
        Seq::empty()
    } else {
        arrays_cells(arrays.drop_last()) + arrays.last().cells()
    }
}

/// The cells of a value, row by row.
pub open spec fn value_cells(v: Value) -> Seq<CellValue> {
    match v {
        Value::Single(c) => seq![c],
        Value::Array(a) => a.cells(),
        Value::Tuple(arrays) => arrays_cells(arrays@),
    }
}

/// The cells of all the operands in turn.
pub open spec fn flat_cells(operands: Seq<Spanned<Value>>) -> Seq<Spanned<CellValue>>
    decreases operands.len(),
{
    if operands.len() == 0 {
        Seq::empty()
    } else {
        flat_cells(operands.drop_last()) + spanned(
            value_cells(operands.last().inner),
            operands.last().span,
        )
    }
}

/// The format that `ARRAYTOTEXT` is called with: its second operand, which
/// must be a single value, taken for a whole number.
pub open spec fn format_arg(operands: Seq<Spanned<Value>>) -> Result<
    Option<Spanned<i64>>,
    Outcome,
> {
    if operands.len() < 2 {
        Ok(None)
    } else {
        match operands[1].inner.spec_cell_value() {
            None => Err(
                Outcome::Mismatch {
                    span: operands[1].span,
                    expected: "single value"@,
                    got: operands[1].inner.kind_name(),
                },
            ),
            Some(c) => optional_integer_arg(seq![Spanned { span: operands[1].span, inner: c }], 0),
        }
    }
}

/// What a call of a function that takes whole values comes to:
/// `ARRAYTOTEXT` of its first operand as an array, `CONCAT` of the cells of
/// all its operands.
pub open spec fn value_outcome(
    function: StringFunction,
    span: Span,
    operands: Seq<Spanned<Value>>,
) -> Outcome {
    if !function.takes(operands.len()) {
        Outcome::BadCount(span)
    } else if function is ArrayToText {
        match operands[0].inner {
            Value::Tuple(_) => Outcome::Mismatch {
                span: operands[0].span,
                expected: "array"@,
                got: "tuple"@,
            },
            Value::Single(v) => match format_arg(operands) {
                Err(o) => o,
                Ok(format) => array_outcome(
                    v.display_text(),
                    "{"@ + v.spec_repr() + "}"@,
                    format,
                ),
            },
            Value::Array(a) => match format_arg(operands) {
                Err(o) => o,
                Ok(format) => array_outcome(joined(a.shown(), ", "@), a.spec_repr(), format),
            },
        }
    } else {
        match texts_of(flat_cells(operands)) {
            Err(o) => o,
            Ok(text) => Outcome::Text(text),
        }
    }
}

/// Whether `r` is what a call of `function` with the operands returns.
pub open spec fn evaluated(
    function: StringFunction,
    span: Span,
    operands: Seq<Spanned<Value>>,
    r: CodeResult<Value>,
) -> bool {
    if function.cell_by_cell() {
        mapped(function, span, operands, r)
    } else {
        match r {
            Ok(Value::Single(v)) => value_outcome(function, span, operands).is_value(v),
            Ok(_) => false,
            Err(e) => value_outcome(function, span, operands).is_error(e),
        }
    }
}

/// Adds the cells of an array to a list.
fn push_cells(out: &mut Vec<Spanned<CellValue>>, array: &Array, span: Span)
    ensures
        final(out)@ == old(out)@ + spanned(array.cells(), span),
{
    let n = array.cell_count();
    let mut i: usize = 0;
    while i < n
        invariant
            i <= n,
            n == array.cells().len(),
            out@ == old(out)@ + spanned(array.cells().take(i as int), span),
        decreases n - i,
    {
        out.push(Spanned { span, inner: array.cell_at(i).clone() });
        i += 1;
        assert(out@ =~= old(out)@ + spanned(array.cells().take(i as int), span));
    }
    assert(array.cells().take(n as int) == array.cells());
}

/// Spanning the cells of arrays one after the other spans all their cells.
proof fn lemma_spanned_add(a: Seq<CellValue>, b: Seq<CellValue>, span: Span)
    ensures
        spanned(a + b, span) == spanned(a, span) + spanned(b, span),
{
    assert(spanned(a + b, span) =~= spanned(a, span) + spanned(b, span));
}

/// The cells of all the operands in turn.
pub fn flatten(operands: &Vec<Spanned<Value>>) -> (r: Vec<Spanned<CellValue>>)
    ensures
        r@ == flat_cells(operands@),
{
    let mut out: Vec<Spanned<CellValue>> = Vec::new();
    let mut i: usize = 0;
    while i < operands.len()
        invariant
            i <= operands@.len(),
            out@ == flat_cells(operands@.take(i as int)),
        decreases operands.len() - i,
    {
        proof {
            assert(operands@.take(i + 1).drop_last() == operands@.take(i as int));
            assert(operands@.take(i + 1).last() == operands@[i as int]);
        }
        let span = operands[i].span;
        match &operands[i].inner {
            Value::Single(c) => {
                out.push(Spanned { span, inner: c.clone() });
                assert(spanned(seq![*c], span) =~= seq![Spanned { span, inner: *c }]);
            },
            Value::Array(a) => {
                push_cells(&mut out, a, span);
            },
            Value::Tuple(arrays) => {
                let ghost before = out@;
                let mut k: usize = 0;
                while k < arrays.len()
                    invariant
                        k <= arrays@.len(),
                        out@ == before + spanned(arrays_cells(arrays@.take(k as int)), span),
                    decreases arrays.len() - k,
                {
                    proof {
                        assert(arrays@.take(k + 1).drop_last() == arrays@.take(k as int));
                        assert(arrays@.take(k + 1).last() == arrays@[k as int]);
                        lemma_spanned_add(
                            arrays_cells(arrays@.take(k as int)),
                            arrays@[k as int].cells(),
                            span,
                        );
                    }
                    push_cells(&mut out, &arrays[k], span);
                    k += 1;
                }
                assert(arrays@.take(arrays@.len() as int) == arrays@);
            },
        }
        i += 1;
    }
    assert(operands@.take(operands@.len() as int) == operands@);
    out
}

/// The format that `ARRAYTOTEXT` is called with.
fn take_format(operands: &Vec<Spanned<Value>>) -> (r: CodeResult<Option<Spanned<i64>>>)
    requires
        operands_wf(operands@),
    ensures
        match format_arg(operands@) {
            Ok(format) => r == Ok::<Option<Spanned<i64>>, RunError>(format),
            Err(o) => (r matches Err(e) && o.is_error(e)),
        },
{
    if operands.len() < 2 {
        return Ok(None);
    }
    let span = operands[1].span;
    match operands[1].inner.cell_value() {
        Ok(c) => {
            let mut cells: Vec<Spanned<CellValue>> = Vec::new();
            cells.push(Spanned { span, inner: c.clone() });
            assert(cells@ == seq![Spanned { span, inner: *c }]);
            coerce_optional_integer(&cells, 0)
        },
        Err(msg) => Err(msg.with_span(span)),
    }
}

/// Calls a function that takes whole values.
fn call_on_values(function: StringFunction, span: Span, operands: &Vec<Spanned<Value>>) -> (r:
    CodeResult<CellValue>)
    requires
        operands_wf(operands@),
        !function.cell_by_cell(),
    ensures
        value_outcome(function, span, operands@).describes(r),
{
    if !function.accepts(operands.len()) {
        return Err(RunErrorMsg::BadArgumentCount.with_span(span));
    }
    match function {
        StringFunction::ArrayToText => {
            match &operands[0].inner {
                Value::Tuple(_) => Err(mismatch(operands[0].span, "array", "tuple")),
                Value::Single(v) => {
                    let format = take_format(operands)?;
                    let array = Array::from_cell(v.clone());
                    proof {
                        lemma_single_array(array, *v);
                    }
                    let text = array_to_text(&array, format)?;
                    Ok(CellValue::Text(text))
                },
                Value::Array(a) => {
                    let format = take_format(operands)?;
                    let text = array_to_text(a, format)?;
                    Ok(CellValue::Text(text))
                },
            }
        },
        _ => {
            let cells = flatten(operands);
            let text = concat_cells(&cells)?;
            Ok(CellValue::Text(text))
        },
    }
}

/// Calls `function` with the operands. A function that works on single
/// cells is applied cell by cell over the least shape that all operands fit;
/// the others take the operands whole.
pub fn eval(function: StringFunction, ctx: &mut Ctx, span: Span, operands: &Vec<Spanned<Value>>) -> (r:
    CodeResult<Value>)
    requires
        operands_wf(operands@),
    ensures
        *final(ctx) == *old(ctx),
        evaluated(function, span, operands@, r),
{
    if function.is_cell_by_cell() {
        let f = |cells: &Vec<Spanned<CellValue>>| -> (out: CodeResult<CellValue>)
            ensures
                cell_outcome(function, span, cells@).describes(out),
            { call_on_cells(function, span, cells) };
        let r = ctx.zip_map(operands, f);
        let ghost got = r;
        proof {
            match got {
                Ok(Value::Single(v)) => {
                    assert(applied(f, operands@, 0, 0, Ok(v)));
                },
                Ok(Value::Array(a)) => {
                    assert forall|x: int, y: int|
                        0 <= x < a.spec_size().w && 0 <= y < a.spec_size().h implies gives_at(
                        function,
                        span,
                        operands@,
                        x,
                        y,
                        Ok(#[trigger] a.cell(x, y)),
                    ) by {
                        assert(applied(f, operands@, x, y, Ok(a.cell(x, y))));
                    }
                },
                Ok(Value::Tuple(_)) => {},
                Err(e) => {
                    if exists|w: int, x: int, y: int|
                        is_least_common_len(operands@, Axis::X, w) && #[trigger] fails_first_at(
                            f,
                            operands@,
                            w,
                            x,
                            y,
                            e,
                        ) {
                        let (w, x, y) = choose|w: int, x: int, y: int|
                            is_least_common_len(operands@, Axis::X, w) && #[trigger] fails_first_at(
                                f,
                                operands@,
                                w,
                                x,
                                y,
                                e,
                            );
                        assert(gives_at(function, span, operands@, x, y, Err(e)));
                        assert forall|cx: int, cy: int|
                            0 <= cx < w && (0 <= cy < y || (cy == y && 0 <= cx < x)) implies !(
                        #[trigger] cell_outcome(function, span, cells_at(operands@, cx, cy))).fails() by {
                            assert(yields_at(f, operands@, cx, cy));
                            let v = choose|v: CellValue| applied(f, operands@, cx, cy, Ok(v));
                            assert(applied(f, operands@, cx, cy, Ok(v)));
                        }
                        assert(fails_first(function, span, operands@, w, x, y, e));
                    }
                },
            }
        }
        r
    } else {
        match call_on_values(function, span, operands) {
            Ok(v) => Ok(Value::Single(v)),
            Err(e) => Err(e),
        }
    }
}

} // verus!
