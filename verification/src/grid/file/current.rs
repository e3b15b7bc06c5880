//! A grid and its file in the latest schema.

use crate::grid::borders::{BorderStyle, CellBorders};
use crate::grid::column::{keys_between, Column};
use crate::grid::offsets::entry_of;
use crate::grid::code::{clone_opt_string, CodeRun, CodeRunResult};
use crate::grid::file::v1_6::file::{
    export_cell_value, export_run_error, exported_value, import_cell_value, import_error,
    import_run_error, imported_error, lemma_value_round_trip, stored_canonical, value_imported,
};
use crate::grid::bounds::GridBounds;
use crate::grid::ids::{uuid_value, SheetId};
use crate::grid::offsets::SheetOffsets;
use crate::grid::sheet::validations::Validations;
use crate::grid::sheet::Sheet;
use crate::grid::Grid;
use vstd::string::StringExecFns;
use crate::pos::Pos;
use crate::rect::SheetRect;
use crate::values::array::{Array, ArraySize, Value};
use crate::grid::file::v1_6::schema as current;
use crate::grid::file::FileError;
use crate::grid::formatting::{CellAlign, CellWrap, NumericFormat, NumericFormatKind, RenderSize};
use crate::grid::track::{model_in, Run, Track, TrackValue};
use crate::values::decimal::{i64_to_string, parse_i64, text_i64};
use crate::values::CellValue;
use std::collections::BTreeMap;
use vstd::prelude::*;

verus! {

broadcast use {vstd::std_specs::btree::group_btree_axioms, vstd::laws_cmp::group_laws_cmp};

/// The value stored for row `y`: that of the last entry whose key stands for
/// `y`.
pub open spec fn stored_cell(values: Seq<(String, current::CellValue)>, y: i64) -> Option<
    current::CellValue,
>
    decreases values.len(),
{
    if values.len() == 0 {
        None
    } else if text_i64(values.last().0@) == Some(y) {
        Some(values.last().1)
    } else {
        stored_cell(values.drop_last(), y)
    }
}

/// Every key stands for a row and every value can be read.
pub open spec fn values_importable(values: Seq<(String, current::CellValue)>) -> bool {
    forall|i: int|
        0 <= i < values.len() ==> text_i64((#[trigger] values[i]).0@) is Some && import_error(
            values[i].1,
        ) is None
}

/// Every stored number prints as itself.
pub open spec fn values_canonical(values: Seq<(String, current::CellValue)>) -> bool {
    forall|i: int| 0 <= i < values.len() ==> stored_canonical((#[trigger] values[i]).1)
}

/// What is stored for row `y` stands for what `cell` holds: nothing where
/// nothing or a blank is stored.
pub open spec fn cell_imported(stored: Option<current::CellValue>, cell: Option<CellValue>) -> bool {
    match stored {
        Some(sv) => if sv == current::CellValue::Blank {
            cell is None
        } else {
            match cell {
                Some(v) => value_imported(sv, v),
                None => false,
            }
        },
        None => cell is None,
    }
}

/// The cell of a map, if there is one.
pub open spec fn cell_of_map(map: Map<i64, CellValue>, y: i64) -> Option<CellValue> {
    if map.contains_key(y) {
        Some(map[y])
    } else {
        None
    }
}

/// The map holds what the stored values stand for, row by row.
pub open spec fn values_imported(
    values: Seq<(String, current::CellValue)>,
    map: Map<i64, CellValue>,
) -> bool {
    forall|y: i64| cell_imported(#[trigger] stored_cell(values, y), cell_of_map(map, y))
}

/// No blank is held, and every number prints as itself.
pub open spec fn cells_wf(map: Map<i64, CellValue>) -> bool {
    forall|y: i64| #[trigger] map.contains_key(y) ==> map[y] != CellValue::Blank && map[y].wf()
}

/// The error of one stored value: its key stands for no row, or it is a
/// number whose text is no decimal.
pub open spec fn value_entry_error(entry: (String, current::CellValue)) -> Option<FileError> {
    if text_i64(entry.0@) is None {
        Some(FileError::BadRowKey(entry.0))
    } else {
        import_error(entry.1)
    }
}

/// `e` is the error of the first stored value that cannot be read.
pub open spec fn values_refused(values: Seq<(String, current::CellValue)>, e: FileError) -> bool {
    exists|i: int|
        0 <= i < values.len() && values_importable(values.take(i)) && #[trigger] value_entry_error(
            values[i],
        ) == Some(e)
}

/// Reads the values of a column. A key that stands for no row is refused,
/// and so is a number whose text is no decimal.
pub fn import_values(values: &Vec<(String, current::CellValue)>) -> (r: Result<
    BTreeMap<i64, CellValue>,
    FileError,
>)
    ensures
        values_importable(values@) ==> (r matches Ok(map) && values_imported(values@, map@)
            && cells_wf(map@)),
        !values_importable(values@) ==> r is Err,
        r matches Err(e) ==> values_refused(values@, e),
{
    let mut map: BTreeMap<i64, CellValue> = BTreeMap::new();
    let mut i: usize = 0;
    assert(values@.take(0) == Seq::<(String, current::CellValue)>::empty());
    while i < values.len()
        invariant
            i <= values@.len(),
            values_importable(values@.take(i as int)),
            values_imported(values@.take(i as int), map@),
            cells_wf(map@),
        decreases values.len() - i,
    {
        let ghost before = values@.take(i as int);
        let ghost after = values@.take(i + 1);
        let ghost old_map = map@;
        proof {
            assert(after.drop_last() == before);
            assert(after.last() == values@[i as int]);
        }
        let y = match parse_i64(values[i].0.as_str()) {
            Some(y) => y,
            None => {
                let e = FileError::BadRowKey(values[i].0.clone());
                assert(value_entry_error(values@[i as int]) == Some(e));
                return Err(e);
            },
        };
        let value = match import_cell_value(&values[i].1) {
            Ok(value) => value,
            Err(e) => {
                assert(value_entry_error(values@[i as int]) == Some(e));
                return Err(e);
            },
        };
        match value {
            CellValue::Blank => {
                map.remove(&y);
            },
            _ => {
                map.insert(y, value);
            },
        }
        proof {
            assert forall|k: int| 0 <= k < after.len() implies text_i64((#[trigger] after[k]).0@)
                is Some && import_error(after[k].1) is None by {
                if k < i {
                    assert(after[k] == before[k]);
                }
            }
            assert forall|z: i64|
                cell_imported(#[trigger] stored_cell(after, z), cell_of_map(map@, z)) by {
                if z != y {
                    assert(cell_imported(stored_cell(before, z), cell_of_map(old_map, z)));
                }
            }
        }
        i += 1;
    }
    assert(values@.take(values@.len() as int) == values@);
    Ok(map)
}

/// Writes the values of a column, each under its row as text.
pub fn export_values(map: &BTreeMap<i64, CellValue>) -> (values: Vec<(String, current::CellValue)>)
    requires
        cells_wf(map@),
    ensures
        values_importable(values@),
        values_canonical(values@),
        values_imported(values@, map@),
        forall|y: i64|
            #[trigger] stored_cell(values@, y) == if map@.contains_key(y) {
                Some(exported_value(map@[y]))
            } else {
                None
            },
{
    let rows = keys_between(map, i64::MIN, i64::MAX);
    let mut out: Vec<(String, current::CellValue)> = Vec::new();
    let mut i: usize = 0;
    while i < rows.len()
        invariant
            i <= rows@.len(),
            cells_wf(map@),
            forall|k: i64| #[trigger] rows@.contains(k) <==> map@.contains_key(k),
            values_importable(out@),
            values_canonical(out@),
            forall|y: i64|
                #[trigger] stored_cell(out@, y) == if exists|j: int| 0 <= j < i && rows@[j] == y {
                    Some(exported_value(map@[y]))
                } else {
                    None
                },
        decreases rows.len() - i,
    {
        let y = rows[i];
        assert(rows@.contains(y));
        let ghost before = out@;
        match map.get(&y) {
            Some(v) => {
                proof {
                    lemma_value_round_trip(*v, *v);
                }
                out.push((i64_to_string(y), export_cell_value(v)));
            },
            None => {},
        }
        i += 1;
        proof {
            let after = out@;
            assert(after.drop_last() == before);
            assert forall|k: int| 0 <= k < after.len() implies text_i64((#[trigger] after[k]).0@)
                is Some && import_error(after[k].1) is None by {
                if k < before.len() {
                    assert(after[k] == before[k]);
                }
            }
            assert forall|k: int| 0 <= k < after.len() implies stored_canonical(
                (#[trigger] after[k]).1,
            ) by {
                if k < before.len() {
                    assert(after[k] == before[k]);
                }
            }
            assert forall|z: i64|
                #[trigger] stored_cell(after, z) == if exists|j: int| 0 <= j < i && rows@[j] == z {
                    Some(exported_value(map@[z]))
                } else {
                    None
                } by {
                if z == y {
                    assert(rows@[i - 1] == z);
                } else {
                    assert(stored_cell(after, z) == stored_cell(before, z));
                    if exists|j: int| 0 <= j < i && rows@[j] == z {
                        let j = choose|j: int| 0 <= j < i && rows@[j] == z;
                        assert(0 <= j < i - 1 && rows@[j] == z);
                    }
                }
            }
        }
    }
    proof {
        assert forall|y: i64|
            #[trigger] stored_cell(out@, y) == if map@.contains_key(y) {
                Some(exported_value(map@[y]))
            } else {
                None
            } by {
            if map@.contains_key(y) {
                assert(rows@.contains(y));
                let j = choose|j: int| 0 <= j < rows@.len() && rows@[j] == y;
                assert(0 <= j < i && rows@[j] == y);
            } else {
                if exists|j: int| 0 <= j < i && rows@[j] == y {
                    let j = choose|j: int| 0 <= j < i && rows@[j] == y;
                    assert(rows@.contains(y));
                }
            }
        }
        assert forall|y: i64|
            cell_imported(#[trigger] stored_cell(out@, y), cell_of_map(map@, y)) by {
            if map@.contains_key(y) {
                lemma_value_round_trip(map@[y], map@[y]);
            }
        }
    }
    out
}

/// A formatting value that can be written to a file and read from it.
pub trait Persist: TrackValue {
    type Stored;

    /// What a stored value stands for.
    spec fn stored_model(stored: Self::Stored) -> Self::Model;

    /// Writes the value to the file schema.
    fn export(&self) -> (r: Self::Stored)
        ensures
            Self::stored_model(r) == self.model(),
    ;

    /// Reads a value from the file schema.
    fn import(stored: &Self::Stored) -> (r: Self)
        ensures
            r.model() == Self::stored_model(*stored),
    ;
}

impl Persist for bool {
    type Stored = bool;

    open spec fn stored_model(stored: bool) -> bool {
        stored
    }

    fn export(&self) -> (r: bool) {
        *self
    }

    fn import(stored: &bool) -> (r: bool) {
        *stored
    }
}

impl Persist for i16 {
    type Stored = i16;

    open spec fn stored_model(stored: i16) -> i16 {
        stored
    }

    fn export(&self) -> (r: i16) {
        *self
    }

    fn import(stored: &i16) -> (r: i16) {
        *stored
    }
}

impl Persist for String {
    type Stored = String;

    open spec fn stored_model(stored: String) -> Seq<char> {
        stored@
    }

    fn export(&self) -> (r: String) {
        self.clone()
    }

    fn import(stored: &String) -> (r: String) {
        stored.clone()
    }
}

impl Persist for CellAlign {
    type Stored = current::CellAlign;

    open spec fn stored_model(stored: current::CellAlign) -> CellAlign {
        match stored {
            current::CellAlign::Left => CellAlign::Left,
            current::CellAlign::Center => CellAlign::Center,
            current::CellAlign::Right => CellAlign::Right,
        }
    }

    fn export(&self) -> (r: current::CellAlign) {
        match self {
            CellAlign::Left => current::CellAlign::Left,
            CellAlign::Center => current::CellAlign::Center,
            CellAlign::Right => current::CellAlign::Right,
        }
    }

    fn import(stored: &current::CellAlign) -> (r: CellAlign) {
        match stored {
            current::CellAlign::Left => CellAlign::Left,
            current::CellAlign::Center => CellAlign::Center,
            current::CellAlign::Right => CellAlign::Right,
        }
    }
}

impl Persist for CellWrap {
    type Stored = current::CellWrap;

    open spec fn stored_model(stored: current::CellWrap) -> CellWrap {
        match stored {
            current::CellWrap::Overflow => CellWrap::Overflow,
            current::CellWrap::Wrap => CellWrap::Wrap,
            current::CellWrap::Clip => CellWrap::Clip,
        }
    }

    fn export(&self) -> (r: current::CellWrap) {
        match self {
            CellWrap::Overflow => current::CellWrap::Overflow,
            CellWrap::Wrap => current::CellWrap::Wrap,
            CellWrap::Clip => current::CellWrap::Clip,
        }
    }

    fn import(stored: &current::CellWrap) -> (r: CellWrap) {
        match stored {
            current::CellWrap::Overflow => CellWrap::Overflow,
            current::CellWrap::Wrap => CellWrap::Wrap,
            current::CellWrap::Clip => CellWrap::Clip,
        }
    }
}

/// The kind of a numeric format as it is read from a file.
pub open spec fn imported_kind(kind: current::NumericFormatKind) -> NumericFormatKind {
    match kind {
        current::NumericFormatKind::Number => NumericFormatKind::Number,
        current::NumericFormatKind::Currency => NumericFormatKind::Currency,
        current::NumericFormatKind::Percentage => NumericFormatKind::Percentage,
        current::NumericFormatKind::Exponential => NumericFormatKind::Exponential,
    }
}

impl Persist for NumericFormat {
    type Stored = current::NumericFormat;

    open spec fn stored_model(stored: current::NumericFormat) -> (
        NumericFormatKind,
        Option<Seq<char>>,
    ) {
        (imported_kind(stored.kind), crate::grid::formatting::opt_text(stored.symbol))
    }

    fn export(&self) -> (r: current::NumericFormat) {
        current::NumericFormat {
            kind: match self.kind {
                NumericFormatKind::Number => current::NumericFormatKind::Number,
                NumericFormatKind::Currency => current::NumericFormatKind::Currency,
                NumericFormatKind::Percentage => current::NumericFormatKind::Percentage,
                NumericFormatKind::Exponential => current::NumericFormatKind::Exponential,
            },
            symbol: crate::grid::code::clone_opt_string(&self.symbol),
        }
    }

    fn import(stored: &current::NumericFormat) -> (r: NumericFormat) {
        NumericFormat {
            kind: match stored.kind {
                current::NumericFormatKind::Number => NumericFormatKind::Number,
                current::NumericFormatKind::Currency => NumericFormatKind::Currency,
                current::NumericFormatKind::Percentage => NumericFormatKind::Percentage,
                current::NumericFormatKind::Exponential => NumericFormatKind::Exponential,
            },
            symbol: crate::grid::code::clone_opt_string(&stored.symbol),
        }
    }
}

impl Persist for RenderSize {
    type Stored = current::RenderSize;

    open spec fn stored_model(stored: current::RenderSize) -> (Seq<char>, Seq<char>) {
        (stored.w@, stored.h@)
    }

    fn export(&self) -> (r: current::RenderSize) {
        current::RenderSize { w: self.w.clone(), h: self.h.clone() }
    }

    fn import(stored: &current::RenderSize) -> (r: RenderSize) {
        RenderSize { w: stored.w.clone(), h: stored.h.clone() }
    }
}

/// The first row of a stored run.
pub open spec fn run_start<S>(entry: (String, current::ColumnRepeat<S>)) -> Option<i64> {
    text_i64(entry.0@)
}

/// The last row of a stored run.
pub open spec fn run_end<S>(entry: (String, current::ColumnRepeat<S>)) -> int {
    run_start(entry)->0 + entry.1.len - 1
}

/// The key stands for a row, and the run holds at least one row and ends at
/// or before the last row.
pub open spec fn run_ok<S>(entry: (String, current::ColumnRepeat<S>)) -> bool {
    run_start(entry) is Some && entry.1.len >= 1 && run_end(entry) <= i64::MAX
}

/// Whether the stored run covers row `z`.
pub open spec fn run_covers<S>(entry: (String, current::ColumnRepeat<S>), z: int) -> bool {
    run_start(entry)->0 <= z <= run_end(entry)
}

/// Every run is sound, and each starts behind the end of the one before.
pub open spec fn runs_importable<S>(entries: Seq<(String, current::ColumnRepeat<S>)>) -> bool {
    &&& forall|i: int| 0 <= i < entries.len() ==> run_ok(#[trigger] entries[i])
    &&& forall|i: int, j: int|
        0 <= i < j < entries.len() ==> run_end(#[trigger] entries[i]) < run_start(
            #[trigger] entries[j],
        )->0
}

/// What the stored runs say of row `z`.
pub open spec fn stored_run_model<T: Persist>(
    entries: Seq<(String, current::ColumnRepeat<T::Stored>)>,
    z: int,
) -> Option<T::Model>
    decreases entries.len(),
{
    if entries.len() == 0 {
        None
    } else if run_covers(entries.last(), z) {
        Some(T::stored_model(entries.last().1.value))
    } else {
        stored_run_model::<T>(entries.drop_last(), z)
    }
}

/// The error of the stored run at place `i`: its key stands for no row; or
/// it holds no row or ends past the last row; or it does not start behind
/// the end of the run before it.
pub open spec fn run_error_at<S>(entries: Seq<(String, current::ColumnRepeat<S>)>, i: int) -> Option<
    FileError,
> {
    if run_start(entries[i]) is None {
        Some(FileError::BadRowKey(entries[i].0))
    } else if !run_ok(entries[i]) {
        Some(FileError::BadRunLength)
    } else if i > 0 && run_end(entries[i - 1]) >= run_start(entries[i])->0 {
        Some(FileError::RunsOutOfOrder)
    } else {
        None
    }
}

/// `e` is the error of the first stored run that cannot be read.
pub open spec fn runs_refused<S>(entries: Seq<(String, current::ColumnRepeat<S>)>, e: FileError) -> bool {
    exists|i: int|
        0 <= i < entries.len() && runs_importable(entries.take(i)) && #[trigger] run_error_at(
            entries,
            i,
        ) == Some(e)
}

/// Reads the runs of one attribute. The runs must be in order and apart; a
/// run that holds no row or ends past the last row is refused.
pub fn import_track<T: Persist>(entries: &Vec<(String, current::ColumnRepeat<T::Stored>)>) -> (r:
    Result<Track<T>, FileError>)
    ensures
        runs_importable(entries@) ==> (r matches Ok(track) && track.wf() && forall|z: int|
            #[trigger] track.model_at(z) == stored_run_model::<T>(entries@, z)),
        !runs_importable(entries@) ==> r is Err,
        r matches Err(e) ==> runs_refused(entries@, e),
{
    let mut track: Track<T> = Track::new();
    let mut i: usize = 0;
    assert(entries@.take(0) == Seq::<(String, current::ColumnRepeat<T::Stored>)>::empty());
    while i < entries.len()
        invariant
            i <= entries@.len(),
            track.wf(),
            runs_importable(entries@.take(i as int)),
            i == 0 ==> track.runs().len() == 0,
            i > 0 ==> track.runs().len() > 0 && track.runs().last().end == run_end(
                entries@[i - 1],
            ),
            forall|z: int|
                #[trigger] track.model_at(z) == stored_run_model::<T>(entries@.take(i as int), z),
        decreases entries.len() - i,
    {
        let ghost before = entries@.take(i as int);
        let ghost after = entries@.take(i + 1);
        let ghost old_track = track;
        proof {
            assert(after.drop_last() == before);
            assert(after.last() == entries@[i as int]);
        }
        let start = match parse_i64(entries[i].0.as_str()) {
            Some(y) => y,
            None => {
                let e = FileError::BadRowKey(entries[i].0.clone());
                proof {
                    assert(!run_ok(entries@[i as int]));
                    assert(run_error_at(entries@, i as int) == Some(e));
                }
                return Err(e);
            },
        };
        let len = entries[i].1.len;
        if len == 0 || (start as i128) + (len as i128) - 1 > i64::MAX as i128 {
            proof {
                assert(!run_ok(entries@[i as int]));
                assert(run_error_at(entries@, i as int) == Some(FileError::BadRunLength));
            }
            return Err(FileError::BadRunLength);
        }
        let end = ((start as i128) + (len as i128) - 1) as i64;
        match track.last_end() {
            Some(last) => {
                if last >= start {
                    proof {
                        assert(i > 0);
                        assert(after[i - 1] == entries@[i - 1]);
                        assert(after[i as int] == entries@[i as int]);
                        assert(!(run_end(after[i - 1]) < run_start(after[i as int])->0));
                        if runs_importable(entries@) {
                            assert(run_end(entries@[i - 1]) < run_start(entries@[i as int])->0);
                        }
                        assert(run_ok(entries@[i as int]));
                        assert(run_error_at(entries@, i as int) == Some(
                            FileError::RunsOutOfOrder,
                        ));
                    }
                    return Err(FileError::RunsOutOfOrder);
                }
            },
            None => {},
        }
        track.append(start, end, T::import(&entries[i].1.value));
        proof {
            assert forall|k: int| 0 <= k < after.len() implies run_ok(#[trigger] after[k]) by {
                if k < i {
                    assert(after[k] == before[k]);
                }
            }
            assert forall|a: int, b: int| 0 <= a < b < after.len() implies run_end(
                #[trigger] after[a],
            ) < run_start(#[trigger] after[b])->0 by {
                assert(after[a] == before[a]);
                if b < i {
                    assert(after[b] == before[b]);
                } else {
                    if a < i - 1 {
                        assert(run_end(before[a]) < run_start(before[i - 1])->0);
                        assert(run_ok(before[i - 1]));
                    }
                    assert(before[i - 1] == entries@[i - 1]);
                }
            }
            assert forall|z: int|
                #[trigger] track.model_at(z) == stored_run_model::<T>(after, z) by {
                assert(old_track.model_at(z) == stored_run_model::<T>(before, z));
            }
        }
        i += 1;
    }
    assert(entries@.take(entries@.len() as int) == entries@);
    Ok(track)
}

/// Writes one run to the file schema, in pieces no longer than the schema
/// can say.
fn export_run<T: Persist>(
    out: &mut Vec<(String, current::ColumnRepeat<T::Stored>)>,
    start: i64,
    end: i64,
    value: &T,
)
    requires
        start <= end,
        runs_importable(old(out)@),
        forall|k: int| 0 <= k < old(out)@.len() ==> run_end(#[trigger] old(out)@[k]) < start,
    ensures
        runs_importable(final(out)@),
        forall|k: int| 0 <= k < final(out)@.len() ==> run_end(#[trigger] final(out)@[k]) <= end,
        forall|z: int|
            #[trigger] stored_run_model::<T>(final(out)@, z) == if start <= z <= end {
                Some(value.model())
            } else {
                stored_run_model::<T>(old(out)@, z)
            },
{
    let mut from = start;
    let mut done = false;
    while !done
        invariant
            start <= from <= end,
            runs_importable(out@),
            !done ==> forall|k: int| 0 <= k < out@.len() ==> run_end(#[trigger] out@[k]) < from,
            done ==> forall|k: int| 0 <= k < out@.len() ==> run_end(#[trigger] out@[k]) <= end,
            forall|z: int|
                #[trigger] stored_run_model::<T>(out@, z) == if start <= z && (z < from || (done
                    && z <= end)) {
                    Some(value.model())
                } else {
                    stored_run_model::<T>(old(out)@, z)
                },
        decreases end - from + (if done { 0int } else { 1int }),
    {
        let ghost before = out@;
        let left: i128 = (end as i128) - (from as i128) + 1;
        let len: u32 = if left > u32::MAX as i128 {
            u32::MAX
        } else {
            left as u32
        };
        let entry = (i64_to_string(from), current::ColumnRepeat { value: value.export(), len });
        out.push(entry);
        proof {
            let after = out@;
            assert(after.drop_last() == before);
            assert(run_ok(after.last()));
            assert forall|k: int| 0 <= k < after.len() implies run_ok(#[trigger] after[k]) by {
                if k < before.len() {
                    assert(after[k] == before[k]);
                }
            }
            assert forall|a: int, b: int| 0 <= a < b < after.len() implies run_end(
                #[trigger] after[a],
            ) < run_start(#[trigger] after[b])->0 by {
                assert(after[a] == before[a]);
                if b < before.len() {
                    assert(after[b] == before[b]);
                }
            }
            assert forall|z: int|
                #[trigger] stored_run_model::<T>(after, z) == if run_covers(after.last(), z) {
                    Some(value.model())
                } else {
                    stored_run_model::<T>(before, z)
                } by {}
            assert forall|k: int| 0 <= k < after.len() implies run_end(#[trigger] after[k])
                <= from + len - 1 by {
                if k < before.len() {
                    assert(after[k] == before[k]);
                }
            }
        }
        if left > u32::MAX as i128 {
            from = ((from as i128) + (u32::MAX as i128)) as i64;
        } else {
            done = true;
        }
    }
}

/// Writes the runs of one attribute, each under its first row as text.
pub fn export_track<T: Persist>(track: &Track<T>) -> (entries: Vec<
    (String, current::ColumnRepeat<T::Stored>),
>)
    requires
        track.wf(),
    ensures
        runs_importable(entries@),
        forall|z: int| #[trigger] stored_run_model::<T>(entries@, z) == track.model_at(z),
{
    let runs = track.as_runs();
    let mut out: Vec<(String, current::ColumnRepeat<T::Stored>)> = Vec::new();
    let mut i: usize = 0;
    assert(runs@.take(0) == Seq::<Run<T>>::empty());
    while i < runs.len()
        invariant
            i <= runs@.len(),
            runs@ == track.runs(),
            track.wf(),
            runs_importable(out@),
            i > 0 ==> forall|k: int|
                0 <= k < out@.len() ==> run_end(#[trigger] out@[k]) <= runs@[i - 1].end,
            i == 0 ==> out@.len() == 0,
            forall|z: int|
                #[trigger] stored_run_model::<T>(out@, z) == model_in(runs@.take(i as int), z),
        decreases runs.len() - i,
    {
        proof {
            assert(runs@.take(i + 1).drop_last() == runs@.take(i as int));
            assert(runs@.take(i + 1).last() == runs@[i as int]);
            if i > 0 {
                assert(runs@[i - 1].end < runs@[i as int].start);
            }
        }
        let ghost before = out@;
        export_run::<T>(&mut out, runs[i].start, runs[i].end, &runs[i].value);
        proof {
            assert forall|z: int|
                #[trigger] stored_run_model::<T>(out@, z) == model_in(runs@.take(i + 1), z) by {
                assert(stored_run_model::<T>(before, z) == model_in(runs@.take(i as int), z));
            }
        }
        i += 1;
    }
    assert(runs@.take(runs@.len() as int) == runs@);
    out
}

/// Every list of the stored column can be read.
pub open spec fn column_importable(stored: current::Column) -> bool {
    &&& values_importable(stored.values@)
    &&& runs_importable(stored.align@)
    &&& runs_importable(stored.wrap@)
    &&& runs_importable(stored.numeric_format@)
    &&& runs_importable(stored.numeric_decimals@)
    &&& runs_importable(stored.numeric_commas@)
    &&& runs_importable(stored.bold@)
    &&& runs_importable(stored.italic@)
    &&& runs_importable(stored.text_color@)
    &&& runs_importable(stored.fill_color@)
    &&& runs_importable(stored.render_size@)
}

/// The column holds what the stored column stands for: its values row by
/// row, and the formatting of every row.
pub open spec fn column_imported(stored: current::Column, column: Column) -> bool {
    &&& values_imported(stored.values@, column.values@)
    &&& forall|z: int| #[trigger] column.align.model_at(z) == stored_run_model::<CellAlign>(stored.align@, z)
    &&& forall|z: int| #[trigger] column.wrap.model_at(z) == stored_run_model::<CellWrap>(stored.wrap@, z)
    &&& forall|z: int| #[trigger] column.numeric_format.model_at(z) == stored_run_model::<NumericFormat>(stored.numeric_format@, z)
    &&& forall|z: int| #[trigger] column.numeric_decimals.model_at(z) == stored_run_model::<i16>(stored.numeric_decimals@, z)
    &&& forall|z: int| #[trigger] column.numeric_commas.model_at(z) == stored_run_model::<bool>(stored.numeric_commas@, z)
    &&& forall|z: int| #[trigger] column.bold.model_at(z) == stored_run_model::<bool>(stored.bold@, z)
    &&& forall|z: int| #[trigger] column.italic.model_at(z) == stored_run_model::<bool>(stored.italic@, z)
    &&& forall|z: int| #[trigger] column.text_color.model_at(z) == stored_run_model::<String>(stored.text_color@, z)
    &&& forall|z: int| #[trigger] column.fill_color.model_at(z) == stored_run_model::<String>(stored.fill_color@, z)
    &&& forall|z: int| #[trigger] column.render_size.model_at(z) == stored_run_model::<RenderSize>(stored.render_size@, z)
}

/// `e` is the error of the first list of the stored column that cannot be
/// read: its values come first, then the runs of each attribute.
pub open spec fn column_refused(stored: current::Column, e: FileError) -> bool {
    ||| values_refused(stored.values@, e)
    ||| (values_importable(stored.values@) && runs_refused(stored.align@, e))
    ||| (values_importable(stored.values@) && runs_importable(stored.align@) && runs_refused(stored.wrap@, e))
    ||| (values_importable(stored.values@) && runs_importable(stored.align@) && runs_importable(stored.wrap@) && runs_refused(stored.numeric_format@, e))
    ||| (values_importable(stored.values@) && runs_importable(stored.align@) && runs_importable(stored.wrap@) && runs_importable(stored.numeric_format@) && runs_refused(stored.numeric_decimals@, e))
    ||| (values_importable(stored.values@) && runs_importable(stored.align@) && runs_importable(stored.wrap@) && runs_importable(stored.numeric_format@) && runs_importable(stored.numeric_decimals@) && runs_refused(stored.numeric_commas@, e))
    ||| (values_importable(stored.values@) && runs_importable(stored.align@) && runs_importable(stored.wrap@) && runs_importable(stored.numeric_format@) && runs_importable(stored.numeric_decimals@) && runs_importable(stored.numeric_commas@) && runs_refused(stored.bold@, e))
    ||| (values_importable(stored.values@) && runs_importable(stored.align@) && runs_importable(stored.wrap@) && runs_importable(stored.numeric_format@) && runs_importable(stored.numeric_decimals@) && runs_importable(stored.numeric_commas@) && runs_importable(stored.bold@) && runs_refused(stored.italic@, e))
    ||| (values_importable(stored.values@) && runs_importable(stored.align@) && runs_importable(stored.wrap@) && runs_importable(stored.numeric_format@) && runs_importable(stored.numeric_decimals@) && runs_importable(stored.numeric_commas@) && runs_importable(stored.bold@) && runs_importable(stored.italic@) && runs_refused(stored.text_color@, e))
    ||| (values_importable(stored.values@) && runs_importable(stored.align@) && runs_importable(stored.wrap@) && runs_importable(stored.numeric_format@) && runs_importable(stored.numeric_decimals@) && runs_importable(stored.numeric_commas@) && runs_importable(stored.bold@) && runs_importable(stored.italic@) && runs_importable(stored.text_color@) && runs_refused(stored.fill_color@, e))
    ||| (values_importable(stored.values@) && runs_importable(stored.align@) && runs_importable(stored.wrap@) && runs_importable(stored.numeric_format@) && runs_importable(stored.numeric_decimals@) && runs_importable(stored.numeric_commas@) && runs_importable(stored.bold@) && runs_importable(stored.italic@) && runs_importable(stored.text_color@) && runs_importable(stored.fill_color@) && runs_refused(stored.render_size@, e))
}

/// Reads the column at `x`.
pub fn import_column(x: i64, stored: &current::Column) -> (r: Result<Column, FileError>)
    ensures
        column_importable(*stored) ==> (r matches Ok(column) && column.x == x && column.wf()
            && cells_wf(column.values@) && column_imported(*stored, column)),
        !column_importable(*stored) ==> r is Err,
        r matches Err(e) ==> column_refused(*stored, e),
{
    let values = import_values(&stored.values)?;
    let align = import_track::<CellAlign>(&stored.align)?;
    let wrap = import_track::<CellWrap>(&stored.wrap)?;
    let numeric_format = import_track::<NumericFormat>(&stored.numeric_format)?;
    let numeric_decimals = import_track::<i16>(&stored.numeric_decimals)?;
    let numeric_commas = import_track::<bool>(&stored.numeric_commas)?;
    let bold = import_track::<bool>(&stored.bold)?;
    let italic = import_track::<bool>(&stored.italic)?;
    let text_color = import_track::<String>(&stored.text_color)?;
    let fill_color = import_track::<String>(&stored.fill_color)?;
    let render_size = import_track::<RenderSize>(&stored.render_size)?;
    Ok(
        Column {
            x,
            values,
            align,
            wrap,
            numeric_format,
            numeric_decimals,
            numeric_commas,
            bold,
            italic,
            text_color,
            fill_color,
            render_size,
        },
    )
}

/// Writes a column to the file schema.
pub fn export_column(column: &Column) -> (stored: current::Column)
    requires
        column.wf(),
        cells_wf(column.values@),
    ensures
        column_importable(stored),
        column_imported(stored, *column),
        values_canonical(stored.values@),
{
    current::Column {
        values: export_values(&column.values),
        align: export_track::<CellAlign>(&column.align),
        wrap: export_track::<CellWrap>(&column.wrap),
        numeric_format: export_track::<NumericFormat>(&column.numeric_format),
        numeric_decimals: export_track::<i16>(&column.numeric_decimals),
        numeric_commas: export_track::<bool>(&column.numeric_commas),
        bold: export_track::<bool>(&column.bold),
        italic: export_track::<bool>(&column.italic),
        text_color: export_track::<String>(&column.text_color),
        fill_color: export_track::<String>(&column.fill_color),
        render_size: export_track::<RenderSize>(&column.render_size),
    }
}

/// The size stored for a column or row: that of the last entry for it.
pub open spec fn stored_offset(entries: Seq<(i64, u64)>, key: i64) -> Option<u64>
    decreases entries.len(),
{
    if entries.len() == 0 {
        None
    } else if entries.last().0 == key {
        Some(entries.last().1)
    } else {
        stored_offset(entries.drop_last(), key)
    }
}

/// The map holds the sizes that the entries stand for.
pub open spec fn offsets_imported(entries: Seq<(i64, u64)>, map: Map<i64, u64>) -> bool {
    forall|key: i64| #[trigger] entry_of(map, key) == stored_offset(entries, key)
}

/// Reads the sizes of columns or rows.
pub fn import_offsets(entries: &Vec<(i64, u64)>) -> (map: BTreeMap<i64, u64>)
    ensures
        offsets_imported(entries@, map@),
{
    let mut map: BTreeMap<i64, u64> = BTreeMap::new();
    let mut i: usize = 0;
    assert(entries@.take(0) == Seq::<(i64, u64)>::empty());
    while i < entries.len()
        invariant
            i <= entries@.len(),
            offsets_imported(entries@.take(i as int), map@),
        decreases entries.len() - i,
    {
        let ghost before = entries@.take(i as int);
        let ghost after = entries@.take(i + 1);
        let ghost old_map = map@;
        proof {
            assert(after.drop_last() == before);
            assert(after.last() == entries@[i as int]);
        }
        map.insert(entries[i].0, entries[i].1);
        proof {
            assert forall|key: i64| #[trigger] entry_of(map@, key) == stored_offset(after, key) by {
                if key != entries@[i as int].0 {
                    assert(entry_of(old_map, key) == stored_offset(before, key));
                }
            }
        }
        i += 1;
    }
    assert(entries@.take(entries@.len() as int) == entries@);
    map
}

/// Writes the sizes of columns or rows.
pub fn export_offsets(map: &BTreeMap<i64, u64>) -> (entries: Vec<(i64, u64)>)
    ensures
        offsets_imported(entries@, map@),
{
    let keys = keys_between(map, i64::MIN, i64::MAX);
    let mut out: Vec<(i64, u64)> = Vec::new();
    let mut i: usize = 0;
    while i < keys.len()
        invariant
            i <= keys@.len(),
            forall|k: i64| #[trigger] keys@.contains(k) <==> map@.contains_key(k),
            forall|key: i64|
                #[trigger] stored_offset(out@, key) == if exists|j: int|
                    0 <= j < i && keys@[j] == key {
                    Some(map@[key])
                } else {
                    None
                },
        decreases keys.len() - i,
    {
        let key = keys[i];
        assert(keys@.contains(key));
        let ghost before = out@;
        match map.get(&key) {
            Some(v) => {
                out.push((key, *v));
            },
            None => {},
        }
        i += 1;
        proof {
            let after = out@;
            assert(after.drop_last() == before);
            assert forall|z: i64|
                #[trigger] stored_offset(after, z) == if exists|j: int| 0 <= j < i && keys@[j] == z {
                    Some(map@[z])
                } else {
                    None
                } by {
                if z == key {
                    assert(keys@[i - 1] == z);
                } else {
                    assert(stored_offset(after, z) == stored_offset(before, z));
                    if exists|j: int| 0 <= j < i && keys@[j] == z {
                        let j = choose|j: int| 0 <= j < i && keys@[j] == z;
                        assert(0 <= j < i - 1 && keys@[j] == z);
                    }
                }
            }
        }
    }
    proof {
        assert forall|key: i64| #[trigger] entry_of(map@, key) == stored_offset(out@, key) by {
            if map@.contains_key(key) {
                assert(keys@.contains(key));
                let j = choose|j: int| 0 <= j < keys@.len() && keys@[j] == key;
                assert(0 <= j < i && keys@[j] == key);
            } else {
                if exists|j: int| 0 <= j < i && keys@[j] == key {
                    let j = choose|j: int| 0 <= j < i && keys@[j] == key;
                    assert(keys@.contains(key));
                }
            }
        }
    }
    out
}

/// The line of a side as it is read from a file.
pub open spec fn imported_style(style: Option<current::CellBorder>) -> Option<BorderStyle> {
    match style {
        Some(s) => Some(BorderStyle { color: s.color, line: s.line }),
        None => None,
    }
}

/// The borders of a cell as they are read from a file.
pub open spec fn imported_borders(stored: current::CellBorders) -> CellBorders {
    CellBorders {
        x: stored.x,
        y: stored.y,
        top: imported_style(stored.top),
        left: imported_style(stored.left),
        bottom: imported_style(stored.bottom),
        right: imported_style(stored.right),
    }
}

/// The borders are those that the stored borders stand for, cell by cell.
pub open spec fn borders_imported(stored: Seq<current::CellBorders>, borders: Seq<CellBorders>) -> bool {
    &&& borders.len() == stored.len()
    &&& forall|i: int| 0 <= i < stored.len() ==> #[trigger] borders[i] == imported_borders(stored[i])
}

fn import_style(style: &Option<current::CellBorder>) -> (r: Option<BorderStyle>)
    ensures
        r == imported_style(*style),
{
    match style {
        Some(s) => Some(BorderStyle { color: s.color.clone(), line: s.line.clone() }),
        None => None,
    }
}

fn export_style(style: &Option<BorderStyle>) -> (r: Option<current::CellBorder>)
    ensures
        imported_style(r) == *style,
{
    match style {
        Some(s) => Some(current::CellBorder { color: s.color.clone(), line: s.line.clone() }),
        None => None,
    }
}

/// Reads the borders of a sheet.
pub fn import_borders(stored: &Vec<current::CellBorders>) -> (borders: Vec<CellBorders>)
    ensures
        borders_imported(stored@, borders@),
{
    let mut out: Vec<CellBorders> = Vec::new();
    let mut i: usize = 0;
    while i < stored.len()
        invariant
            i <= stored@.len(),
            out@.len() == i,
            forall|j: int| 0 <= j < i ==> #[trigger] out@[j] == imported_borders(stored@[j]),
        decreases stored.len() - i,
    {
        out.push(
            CellBorders {
                x: stored[i].x,
                y: stored[i].y,
                top: import_style(&stored[i].top),
                left: import_style(&stored[i].left),
                bottom: import_style(&stored[i].bottom),
                right: import_style(&stored[i].right),
            },
        );
        i += 1;
    }
    out
}

/// Writes the borders of a sheet.
pub fn export_borders(borders: &Vec<CellBorders>) -> (stored: Vec<current::CellBorders>)
    ensures
        borders_imported(stored@, borders@),
{
    let mut out: Vec<current::CellBorders> = Vec::new();
    let mut i: usize = 0;
    while i < borders.len()
        invariant
            i <= borders@.len(),
            out@.len() == i,
            forall|j: int| 0 <= j < i ==> borders@[j] == imported_borders(#[trigger] out@[j]),
        decreases borders.len() - i,
    {
        out.push(
            current::CellBorders {
                x: borders[i].x,
                y: borders[i].y,
                top: export_style(&borders[i].top),
                left: export_style(&borders[i].left),
                bottom: export_style(&borders[i].bottom),
                right: export_style(&borders[i].right),
            },
        );
        i += 1;
    }
    out
}

/// The stored rectangle stands for `rect`.
pub open spec fn rect_imported(stored: current::SheetRect, rect: SheetRect) -> bool {
    &&& rect.min == (Pos { x: stored.min.x, y: stored.min.y })
    &&& rect.max == (Pos { x: stored.max.x, y: stored.max.y })
    &&& uuid_value(stored.sheet_id.id@) == Some(rect.sheet_id.id)
}

/// The stored rectangles stand for `rects`, one by one.
pub open spec fn rects_imported(stored: Seq<current::SheetRect>, rects: Seq<SheetRect>) -> bool {
    &&& rects.len() == stored.len()
    &&& forall|i: int| 0 <= i < stored.len() ==> rect_imported(stored[i], #[trigger] rects[i])
}

/// The id of every stored rectangle is a UUID.
pub open spec fn rects_importable(stored: Seq<current::SheetRect>) -> bool {
    forall|i: int| 0 <= i < stored.len() ==> uuid_value((#[trigger] stored[i]).sheet_id.id@) is Some
}

/// `e` is the error of the first stored rectangle whose id is no UUID.
pub open spec fn rects_refused(stored: Seq<current::SheetRect>, e: FileError) -> bool {
    exists|i: int|
        {
            &&& 0 <= i < stored.len()
            &&& forall|j: int| 0 <= j < i ==> uuid_value((#[trigger] stored[j]).sheet_id.id@) is Some
            &&& uuid_value((#[trigger] stored[i]).sheet_id.id@) is None
            &&& e == FileError::BadSheetId(stored[i].sheet_id.id)
        }
}

/// Reads the rectangles that a code run accessed.
pub fn import_rects(stored: &Vec<current::SheetRect>) -> (r: Result<Vec<SheetRect>, FileError>)
    ensures
        rects_importable(stored@) ==> (r matches Ok(rects) && rects_imported(stored@, rects@)),
        !rects_importable(stored@) ==> r is Err,
        r matches Err(e) ==> rects_refused(stored@, e),
{
    let mut out: Vec<SheetRect> = Vec::new();
    let mut i: usize = 0;
    while i < stored.len()
        invariant
            i <= stored@.len(),
            out@.len() == i,
            forall|j: int| 0 <= j < i ==> uuid_value((#[trigger] stored@[j]).sheet_id.id@) is Some,
            forall|j: int| 0 <= j < i ==> rect_imported(stored@[j], #[trigger] out@[j]),
        decreases stored.len() - i,
    {
        let sheet_id = match SheetId::from_str(stored[i].sheet_id.id.as_str()) {
            Some(id) => id,
            None => {
                return Err(FileError::BadSheetId(stored[i].sheet_id.id.clone()));
            },
        };
        out.push(
            SheetRect {
                min: Pos { x: stored[i].min.x, y: stored[i].min.y },
                max: Pos { x: stored[i].max.x, y: stored[i].max.y },
                sheet_id,
            },
        );
        i += 1;
    }
    Ok(out)
}

/// Writes the rectangles that a code run accessed.
pub fn export_rects(rects: &Vec<SheetRect>) -> (stored: Vec<current::SheetRect>)
    ensures
        rects_importable(stored@),
        rects_imported(stored@, rects@),
{
    let mut out: Vec<current::SheetRect> = Vec::new();
    let mut i: usize = 0;
    while i < rects.len()
        invariant
            i <= rects@.len(),
            out@.len() == i,
            forall|j: int| 0 <= j < i ==> uuid_value((#[trigger] out@[j]).sheet_id.id@) is Some,
            forall|j: int| 0 <= j < i ==> rect_imported(#[trigger] out@[j], rects@[j]),
        decreases rects.len() - i,
    {
        out.push(
            current::SheetRect {
                min: crate::grid::file::v1_5::schema::Pos { x: rects[i].min.x, y: rects[i].min.y },
                max: crate::grid::file::v1_5::schema::Pos { x: rects[i].max.x, y: rects[i].max.y },
                sheet_id: crate::grid::file::v1_5::schema::Id { id: rects[i].sheet_id.to_string() },
            },
        );
        i += 1;
    }
    out
}

/// Every stored value can be read.
pub open spec fn outputs_importable(values: Seq<current::CellValue>) -> bool {
    forall|i: int| 0 <= i < values.len() ==> import_error(#[trigger] values[i]) is None
}

/// Every stored number prints as itself.
pub open spec fn outputs_canonical(values: Seq<current::CellValue>) -> bool {
    forall|i: int| 0 <= i < values.len() ==> stored_canonical(#[trigger] values[i])
}

/// The values are what the stored values stand for, one by one.
pub open spec fn outputs_imported(stored: Seq<current::CellValue>, values: Seq<CellValue>) -> bool {
    &&& values.len() == stored.len()
    &&& forall|i: int| 0 <= i < stored.len() ==> value_imported(stored[i], #[trigger] values[i])
}

/// The stored result can be read: its values can, and the size of an array
/// is positive, fits, and is the number of its values.
pub open spec fn result_importable(stored: current::CodeRunResult) -> bool {
    match stored {
        current::CodeRunResult::Output(current::OutputValue::Single(v)) => import_error(v) is None,
        current::CodeRunResult::Output(current::OutputValue::Array(a)) => {
            &&& 1 <= a.size.w <= u32::MAX
            &&& 1 <= a.size.h <= u32::MAX
            &&& a.values@.len() == a.size.w * a.size.h
            &&& outputs_importable(a.values@)
        },
        current::CodeRunResult::Failure(_) => true,
    }
}

/// Every number of the stored result prints as itself.
pub open spec fn result_canonical(stored: current::CodeRunResult) -> bool {
    match stored {
        current::CodeRunResult::Output(current::OutputValue::Single(v)) => stored_canonical(v),
        current::CodeRunResult::Output(current::OutputValue::Array(a)) => outputs_canonical(
            a.values@,
        ),
        current::CodeRunResult::Failure(_) => true,
    }
}

/// `result` is what the stored result stands for.
pub open spec fn result_imported(stored: current::CodeRunResult, result: CodeRunResult) -> bool {
    match stored {
        current::CodeRunResult::Output(current::OutputValue::Single(sv)) => match result {
            CodeRunResult::Output(Value::Single(v)) => value_imported(sv, v),
            _ => false,
        },
        current::CodeRunResult::Output(current::OutputValue::Array(sa)) => match result {
            CodeRunResult::Output(Value::Array(a)) => a.wf() && a.spec_size().w == sa.size.w
                && a.spec_size().h == sa.size.h && outputs_imported(sa.values@, a.cells()),
            _ => false,
        },
        current::CodeRunResult::Failure(e) => result == CodeRunResult::Failure(imported_error(e)),
    }
}

/// The size of the stored array is positive, fits, and is the number of its
/// values.
pub open spec fn output_size_ok(a: current::OutputArray) -> bool {
    &&& 1 <= a.size.w <= u32::MAX
    &&& 1 <= a.size.h <= u32::MAX
    &&& a.values@.len() == a.size.w * a.size.h
}

/// `e` is the error of the stored result: that of its single value; or, of
/// an array, that its size is wrong, or else the error of the first of its
/// values that cannot be read.
pub open spec fn result_refused(stored: current::CodeRunResult, e: FileError) -> bool {
    match stored {
        current::CodeRunResult::Output(current::OutputValue::Single(v)) => import_error(v) == Some(
            e,
        ),
        current::CodeRunResult::Output(current::OutputValue::Array(a)) => if !output_size_ok(a) {
            e == FileError::BadOutputSize
        } else {
            exists|i: int|
                {
                    &&& 0 <= i < a.values@.len()
                    &&& forall|j: int| 0 <= j < i ==> import_error(#[trigger] a.values@[j]) is None
                    &&& import_error(#[trigger] a.values@[i]) == Some(e)
                }
        },
        current::CodeRunResult::Failure(_) => false,
    }
}

/// Reads what a code run returned.
pub fn import_result(stored: &current::CodeRunResult) -> (r: Result<CodeRunResult, FileError>)
    ensures
        result_importable(*stored) ==> (r matches Ok(result) && result_imported(*stored, result)
            && result.wf()),
        !result_importable(*stored) ==> r is Err,
        r matches Err(e) ==> result_refused(*stored, e),
{
    match stored {
        current::CodeRunResult::Output(current::OutputValue::Single(sv)) => {
            let v = import_cell_value(sv)?;
            Ok(CodeRunResult::Output(Value::Single(v)))
        },
        current::CodeRunResult::Output(current::OutputValue::Array(sa)) => {
            if sa.size.w < 1 || sa.size.w > u32::MAX as i64 || sa.size.h < 1 || sa.size.h
                > u32::MAX as i64 {
                return Err(FileError::BadOutputSize);
            }
            let size = ArraySize { w: sa.size.w as u32, h: sa.size.h as u32 };
            if sa.values.len() as u64 != size.len() {
                return Err(FileError::BadOutputSize);
            }
            let mut values: Vec<CellValue> = Vec::new();
            let mut i: usize = 0;
            while i < sa.values.len()
                invariant
                    i <= sa.values@.len(),
                    values@.len() == i,
                    *stored == current::CodeRunResult::Output(current::OutputValue::Array(*sa)),
                    output_size_ok(*sa),
                    forall|j: int| 0 <= j < i ==> import_error(#[trigger] sa.values@[j]) is None,
                    forall|j: int|
                        0 <= j < i ==> value_imported(sa.values@[j], #[trigger] values@[j]),
                decreases sa.values.len() - i,
            {
                match import_cell_value(&sa.values[i]) {
                    Ok(v) => {
                        values.push(v);
                    },
                    Err(e) => {
                        return Err(e);
                    },
                }
                i += 1;
            }
            match Array::new_row_major(size, values) {
                Ok(a) => Ok(CodeRunResult::Output(Value::Array(a))),
                Err(_) => Err(FileError::BadOutputSize),
            }
        },
        current::CodeRunResult::Failure(e) => Ok(CodeRunResult::Failure(import_run_error(e))),
    }
}

/// The output of the result holds only numbers that print as themselves.
pub open spec fn result_storable(result: CodeRunResult) -> bool {
    match result {
        CodeRunResult::Output(Value::Single(v)) => v.wf(),
        CodeRunResult::Output(Value::Array(a)) => forall|i: int|
            0 <= i < a.cells().len() ==> (#[trigger] a.cells()[i]).wf(),
        _ => true,
    }
}

/// Writes what a code run returned.
pub fn export_result(result: &CodeRunResult) -> (stored: current::CodeRunResult)
    requires
        result.wf(),
        result_storable(*result),
    ensures
        result_importable(stored),
        result_canonical(stored),
        result_imported(stored, *result),
{
    match result {
        CodeRunResult::Output(Value::Single(v)) => {
            proof {
                lemma_value_round_trip(*v, *v);
            }
            current::CodeRunResult::Output(current::OutputValue::Single(export_cell_value(v)))
        },
        CodeRunResult::Output(Value::Array(a)) => {
            let n = a.cell_count();
            let mut values: Vec<current::CellValue> = Vec::new();
            let mut i: usize = 0;
            while i < n
                invariant
                    i <= n,
                    n == a.cells().len(),
                    values@.len() == i,
                    forall|j: int| 0 <= j < n ==> (#[trigger] a.cells()[j]).wf(),
                    forall|j: int| 0 <= j < i ==> #[trigger] values@[j] == exported_value(a.cells()[j]),
                decreases n - i,
            {
                values.push(export_cell_value(a.cell_at(i)));
                i += 1;
            }
            proof {
                assert forall|j: int| 0 <= j < n implies import_error(#[trigger] values@[j])
                    is None && stored_canonical(values@[j]) && value_imported(
                    values@[j],
                    a.cells()[j],
                ) by {
                    lemma_value_round_trip(a.cells()[j], a.cells()[j]);
                }
            }
            current::CodeRunResult::Output(
                current::OutputValue::Array(
                    current::OutputArray {
                        size: current::OutputSize { w: a.width() as i64, h: a.height() as i64 },
                        values,
                    },
                ),
            )
        },
        CodeRunResult::Output(Value::Tuple(_)) => {
            proof {
                assert(false);
            }
            current::CodeRunResult::Output(
                current::OutputValue::Single(current::CellValue::Blank),
            )
        },
        CodeRunResult::Failure(e) => current::CodeRunResult::Failure(export_run_error(e)),
    }
}

/// The stored code run can be read.
pub open spec fn code_run_importable(stored: current::CodeRun) -> bool {
    rects_importable(stored.cells_accessed@) && result_importable(stored.result)
}

/// The time a run was last modified, zero where it is not stored.
pub open spec fn imported_time(stored: Option<i64>) -> i64 {
    match stored {
        Some(t) => t,
        None => 0,
    }
}

/// `run` is what the stored code run stands for.
pub open spec fn code_run_imported(stored: current::CodeRun, run: CodeRun) -> bool {
    &&& run.formatted_code_string == stored.formatted_code_string
    &&& run.std_out == stored.std_out
    &&& run.std_err == stored.std_err
    &&& rects_imported(stored.cells_accessed@, run.cells_accessed@)
    &&& result_imported(stored.result, run.result)
    &&& run.return_type == stored.return_type
    &&& run.line_number == stored.line_number
    &&& run.output_type == stored.output_type
    &&& run.spill_error == stored.spill_error
    &&& run.last_modified == imported_time(stored.last_modified)
}

/// `e` is the error of the stored code run: that of the rectangles it
/// accessed, or else that of its result.
pub open spec fn code_run_refused(stored: current::CodeRun, e: FileError) -> bool {
    ||| rects_refused(stored.cells_accessed@, e)
    ||| (rects_importable(stored.cells_accessed@) && result_refused(stored.result, e))
}

/// Reads a code run.
pub fn import_code_run(stored: &current::CodeRun) -> (r: Result<CodeRun, FileError>)
    ensures
        code_run_importable(*stored) ==> (r matches Ok(run) && code_run_imported(*stored, run)
            && run.wf()),
        !code_run_importable(*stored) ==> r is Err,
        r matches Err(e) ==> code_run_refused(*stored, e),
{
    let cells_accessed = import_rects(&stored.cells_accessed)?;
    let result = import_result(&stored.result)?;
    Ok(
        CodeRun {
            formatted_code_string: clone_opt_string(&stored.formatted_code_string),
            std_out: clone_opt_string(&stored.std_out),
            std_err: clone_opt_string(&stored.std_err),
            cells_accessed,
            result,
            return_type: clone_opt_string(&stored.return_type),
            line_number: stored.line_number,
            output_type: clone_opt_string(&stored.output_type),
            spill_error: stored.spill_error,
            last_modified: match stored.last_modified {
                Some(t) => t,
                None => 0,
            },
        },
    )
}

/// Writes a code run to the file schema.
pub fn export_code_run(run: &CodeRun) -> (stored: current::CodeRun)
    requires
        run.wf(),
        result_storable(run.result),
    ensures
        code_run_importable(stored),
        result_canonical(stored.result),
        code_run_imported(stored, *run),
{
    current::CodeRun {
        formatted_code_string: clone_opt_string(&run.formatted_code_string),
        std_out: clone_opt_string(&run.std_out),
        std_err: clone_opt_string(&run.std_err),
        cells_accessed: export_rects(&run.cells_accessed),
        result: export_result(&run.result),
        return_type: clone_opt_string(&run.return_type),
        line_number: run.line_number,
        output_type: clone_opt_string(&run.output_type),
        spill_error: run.spill_error,
        last_modified: Some(run.last_modified),
    }
}

/// Every stored code run can be read, and no two are for one position.
pub open spec fn code_runs_importable(stored: Seq<(current::Pos, current::CodeRun)>) -> bool {
    &&& forall|i: int| 0 <= i < stored.len() ==> code_run_importable((#[trigger] stored[i]).1)
    &&& forall|i: int, j: int|
        0 <= i < j < stored.len() ==> (#[trigger] stored[i]).0 != (#[trigger] stored[j]).0
}

/// Every number of the stored code runs prints as itself.
pub open spec fn code_runs_canonical(stored: Seq<(current::Pos, current::CodeRun)>) -> bool {
    forall|i: int| 0 <= i < stored.len() ==> result_canonical((#[trigger] stored[i]).1.result)
}

/// The code runs are what the stored code runs stand for, in the same order
/// at the same positions.
pub open spec fn code_runs_imported(
    stored: Seq<(current::Pos, current::CodeRun)>,
    runs: Seq<(Pos, CodeRun)>,
) -> bool {
    &&& runs.len() == stored.len()
    &&& forall|i: int|
        0 <= i < stored.len() ==> (#[trigger] runs[i]).0 == (Pos {
            x: stored[i].0.x,
            y: stored[i].0.y,
        }) && code_run_imported(stored[i].1, runs[i].1)
}

/// A code run before place `i` is stored for the position of the one at
/// place `i`.
pub open spec fn is_repeated_position(stored: Seq<(current::Pos, current::CodeRun)>, i: int) -> bool {
    exists|k: int| 0 <= k < i && (#[trigger] stored[k]).0 == stored[i].0
}

/// `e` is the error of the first stored code run that cannot be read: a
/// position that occurs again is refused before the code run is looked at.
pub open spec fn code_runs_refused(
    stored: Seq<(current::Pos, current::CodeRun)>,
    e: FileError,
) -> bool {
    exists|i: int|
        {
            &&& 0 <= i < stored.len()
            &&& code_runs_importable(stored.take(i))
            &&& if #[trigger] is_repeated_position(stored, i) {
                e == FileError::DuplicateCodeRun
            } else {
                code_run_refused(stored[i].1, e)
            }
        }
}

/// Reads the code runs of a sheet.
pub fn import_code_runs(stored: &Vec<(current::Pos, current::CodeRun)>) -> (r: Result<
    Vec<(Pos, CodeRun)>,
    FileError,
>)
    ensures
        code_runs_importable(stored@) ==> (r matches Ok(runs) && code_runs_imported(stored@, runs@)
            && runs_unique(runs@)),
        !code_runs_importable(stored@) ==> r is Err,
        r matches Err(e) ==> code_runs_refused(stored@, e),
{
    let mut out: Vec<(Pos, CodeRun)> = Vec::new();
    let mut i: usize = 0;
    while i < stored.len()
        invariant
            i <= stored@.len(),
            out@.len() == i,
            forall|j: int| 0 <= j < i ==> code_run_importable((#[trigger] stored@[j]).1),
            forall|a: int, b: int|
                0 <= a < b < i ==> (#[trigger] stored@[a]).0 != (#[trigger] stored@[b]).0,
            forall|j: int|
                0 <= j < i ==> (#[trigger] out@[j]).0 == (Pos {
                    x: stored@[j].0.x,
                    y: stored@[j].0.y,
                }) && code_run_imported(stored@[j].1, out@[j].1) && out@[j].1.wf(),
        decreases stored.len() - i,
    {
        let pos = Pos { x: stored[i].0.x, y: stored[i].0.y };
        let mut k: usize = 0;
        while k < i
            invariant
                k <= i,
                i < stored@.len(),
                out@.len() == i,
                pos == (Pos { x: stored@[i as int].0.x, y: stored@[i as int].0.y }),
                forall|j: int| 0 <= j < i ==> code_run_importable((#[trigger] stored@[j]).1),
                forall|a: int, b: int|
                    0 <= a < b < i ==> (#[trigger] stored@[a]).0 != (#[trigger] stored@[b]).0,
                forall|j: int|
                    0 <= j < i ==> (#[trigger] out@[j]).0 == (Pos {
                        x: stored@[j].0.x,
                        y: stored@[j].0.y,
                    }),
                forall|j: int| 0 <= j < k ==> (#[trigger] stored@[j]).0 != stored@[i as int].0,
            decreases i - k,
        {
            if out[k].0 == pos {
                proof {
                    assert(stored@[k as int].0 == stored@[i as int].0);
                    assert(is_repeated_position(stored@, i as int));
                    lemma_code_runs_prefix(stored@, i as int);
                }
                return Err(FileError::DuplicateCodeRun);
            }
            k += 1;
        }
        match import_code_run(&stored[i].1) {
            Ok(run) => {
                out.push((pos, run));
            },
            Err(e) => {
                proof {
                    assert(!is_repeated_position(stored@, i as int));
                    lemma_code_runs_prefix(stored@, i as int);
                }
                return Err(e);
            },
        }
        i += 1;
    }
    proof {
        assert forall|a: int, b: int| 0 <= a < b < out@.len() implies (#[trigger] out@[a]).0 != (
        #[trigger] out@[b]).0 by {
            assert(stored@[a].0 != stored@[b].0);
        }
    }
    Ok(out)
}

/// The first code runs can be read where each of them can and no two of
/// them are for one position.
pub proof fn lemma_code_runs_prefix(stored: Seq<(current::Pos, current::CodeRun)>, i: int)
    requires
        0 <= i <= stored.len(),
        forall|j: int| 0 <= j < i ==> code_run_importable((#[trigger] stored[j]).1),
        forall|a: int, b: int| 0 <= a < b < i ==> (#[trigger] stored[a]).0 != (#[trigger] stored[b]).0,
    ensures
        code_runs_importable(stored.take(i)),
{
    let head = stored.take(i);
    assert forall|j: int| 0 <= j < head.len() implies code_run_importable((#[trigger] head[j]).1) by {
        assert(head[j] == stored[j]);
    }
    assert forall|a: int, b: int| 0 <= a < b < head.len() implies (#[trigger] head[a]).0 != (
    #[trigger] head[b]).0 by {
        assert(head[a] == stored[a] && head[b] == stored[b]);
    }
}

/// No two code runs are for one position, and each is well formed.
pub open spec fn runs_unique(runs: Seq<(Pos, CodeRun)>) -> bool {
    &&& forall|a: int, b: int|
        0 <= a < b < runs.len() ==> (#[trigger] runs[a]).0 != (#[trigger] runs[b]).0
    &&& forall|i: int| 0 <= i < runs.len() ==> (#[trigger] runs[i]).1.wf()
}

/// Every code run holds only numbers that print as themselves.
pub open spec fn runs_storable(runs: Seq<(Pos, CodeRun)>) -> bool {
    forall|i: int| 0 <= i < runs.len() ==> result_storable((#[trigger] runs[i]).1.result)
}

/// Writes the code runs of a sheet.
pub fn export_code_runs(runs: &Vec<(Pos, CodeRun)>) -> (stored: Vec<(current::Pos, current::CodeRun)>)
    requires
        runs_unique(runs@),
        runs_storable(runs@),
    ensures
        code_runs_importable(stored@),
        code_runs_canonical(stored@),
        code_runs_imported(stored@, runs@),
{
    let mut out: Vec<(current::Pos, current::CodeRun)> = Vec::new();
    let mut i: usize = 0;
    while i < runs.len()
        invariant
            i <= runs@.len(),
            out@.len() == i,
            runs_unique(runs@),
            runs_storable(runs@),
            forall|j: int|
                0 <= j < i ==> code_run_importable((#[trigger] out@[j]).1) && result_canonical(
                    out@[j].1.result,
                ) && out@[j].0 == (current::Pos { x: runs@[j].0.x, y: runs@[j].0.y })
                    && code_run_imported(out@[j].1, runs@[j].1),
        decreases runs.len() - i,
    {
        out.push((current::Pos { x: runs[i].0.x, y: runs[i].0.y }, export_code_run(&runs[i].1)));
        i += 1;
    }
    proof {
        assert forall|a: int, b: int| 0 <= a < b < out@.len() implies (#[trigger] out@[a]).0 != (
        #[trigger] out@[b]).0 by {
            assert(runs@[a].0 != runs@[b].0);
        }
    }
    out
}

/// The column stored for `x`: that of the last entry for it.
pub open spec fn stored_column(columns: Seq<(i64, current::Column)>, x: i64) -> Option<
    current::Column,
>
    decreases columns.len(),
{
    if columns.len() == 0 {
        None
    } else if columns.last().0 == x {
        Some(columns.last().1)
    } else {
        stored_column(columns.drop_last(), x)
    }
}

/// Every stored column can be read.
pub open spec fn columns_importable(columns: Seq<(i64, current::Column)>) -> bool {
    forall|i: int| 0 <= i < columns.len() ==> column_importable((#[trigger] columns[i]).1)
}

/// Every number stored in a column prints as itself.
pub open spec fn columns_canonical(columns: Seq<(i64, current::Column)>) -> bool {
    forall|i: int| 0 <= i < columns.len() ==> values_canonical((#[trigger] columns[i]).1.values@)
}

/// What is stored for column `x` stands for what the map holds there.
pub open spec fn column_slot_imported(
    stored: Option<current::Column>,
    map: Map<i64, Column>,
    x: i64,
) -> bool {
    match stored {
        Some(sc) => map.contains_key(x) && map[x].x == x && column_imported(sc, map[x]),
        None => !map.contains_key(x),
    }
}

/// The map holds what the stored columns stand for, column by column.
pub open spec fn columns_imported(columns: Seq<(i64, current::Column)>, map: Map<i64, Column>) -> bool {
    forall|x: i64| column_slot_imported(#[trigger] stored_column(columns, x), map, x)
}

/// Every column is well formed, sits at its own coordinate, and holds only
/// numbers that print as themselves.
pub open spec fn columns_wf(map: Map<i64, Column>) -> bool {
    forall|x: i64| #[trigger]
        map.contains_key(x) ==> map[x].wf() && map[x].x == x && cells_wf(map[x].values@)
}

/// `e` is the error of the first stored column that cannot be read.
pub open spec fn columns_refused(columns: Seq<(i64, current::Column)>, e: FileError) -> bool {
    exists|i: int|
        0 <= i < columns.len() && columns_importable(columns.take(i)) && column_refused(
            (#[trigger] columns[i]).1,
            e,
        )
}

/// Reads the columns of a sheet.
pub fn import_columns(columns: &Vec<(i64, current::Column)>) -> (r: Result<
    BTreeMap<i64, Column>,
    FileError,
>)
    ensures
        columns_importable(columns@) ==> (r matches Ok(map) && columns_imported(columns@, map@)
            && columns_wf(map@)),
        !columns_importable(columns@) ==> r is Err,
        r matches Err(e) ==> columns_refused(columns@, e),
{
    let mut map: BTreeMap<i64, Column> = BTreeMap::new();
    let mut i: usize = 0;
    assert(columns@.take(0) == Seq::<(i64, current::Column)>::empty());
    while i < columns.len()
        invariant
            i <= columns@.len(),
            columns_importable(columns@.take(i as int)),
            columns_imported(columns@.take(i as int), map@),
            columns_wf(map@),
        decreases columns.len() - i,
    {
        let ghost before = columns@.take(i as int);
        let ghost after = columns@.take(i + 1);
        let ghost old_map = map@;
        proof {
            assert(after.drop_last() == before);
            assert(after.last() == columns@[i as int]);
        }
        let x = columns[i].0;
        let column = match import_column(x, &columns[i].1) {
            Ok(column) => column,
            Err(e) => {
                assert(column_refused(columns@[i as int].1, e));
                return Err(e);
            },
        };
        map.insert(x, column);
        proof {
            assert forall|k: int| 0 <= k < after.len() implies column_importable(
                (#[trigger] after[k]).1,
            ) by {
                if k < i {
                    assert(after[k] == before[k]);
                }
            }
            assert forall|z: i64|
                column_slot_imported(#[trigger] stored_column(after, z), map@, z) by {
                if z != x {
                    assert(column_slot_imported(stored_column(before, z), old_map, z));
                }
            }
        }
        i += 1;
    }
    assert(columns@.take(columns@.len() as int) == columns@);
    Ok(map)
}

/// Writes the columns of a sheet.
pub fn export_columns(map: &BTreeMap<i64, Column>) -> (columns: Vec<(i64, current::Column)>)
    requires
        columns_wf(map@),
    ensures
        columns_importable(columns@),
        columns_canonical(columns@),
        columns_imported(columns@, map@),
{
    let xs = keys_between(map, i64::MIN, i64::MAX);
    let mut out: Vec<(i64, current::Column)> = Vec::new();
    let mut i: usize = 0;
    while i < xs.len()
        invariant
            i <= xs@.len(),
            columns_wf(map@),
            forall|k: i64| #[trigger] xs@.contains(k) <==> map@.contains_key(k),
            columns_importable(out@),
            columns_canonical(out@),
            forall|x: i64|
                match #[trigger] stored_column(out@, x) {
                    Some(sc) => (exists|j: int| 0 <= j < i && xs@[j] == x) && column_imported(
                        sc,
                        map@[x],
                    ),
                    None => !(exists|j: int| 0 <= j < i && xs@[j] == x),
                },
        decreases xs.len() - i,
    {
        let x = xs[i];
        assert(xs@.contains(x));
        let ghost before = out@;
        match map.get(&x) {
            Some(column) => {
                out.push((x, export_column(column)));
            },
            None => {},
        }
        i += 1;
        proof {
            let after = out@;
            assert(after.drop_last() == before);
            assert forall|k: int| 0 <= k < after.len() implies column_importable(
                (#[trigger] after[k]).1,
            ) && values_canonical(after[k].1.values@) by {
                if k < before.len() {
                    assert(after[k] == before[k]);
                }
            }
            assert forall|z: i64|
                match #[trigger] stored_column(after, z) {
                    Some(sc) => (exists|j: int| 0 <= j < i && xs@[j] == z) && column_imported(
                        sc,
                        map@[z],
                    ),
                    None => !(exists|j: int| 0 <= j < i && xs@[j] == z),
                } by {
                if z == x {
                    assert(xs@[i - 1] == z);
                } else {
                    assert(stored_column(after, z) == stored_column(before, z));
                    match stored_column(before, z) {
                        Some(_) => {
                            let j = choose|j: int| 0 <= j < i - 1 && xs@[j] == z;
                            assert(0 <= j < i && xs@[j] == z);
                        },
                        None => {
                            if exists|j: int| 0 <= j < i && xs@[j] == z {
                                let j = choose|j: int| 0 <= j < i && xs@[j] == z;
                                assert(0 <= j < i - 1 && xs@[j] == z);
                            }
                        },
                    }
                }
            }
        }
    }
    proof {
        assert forall|x: i64|
            column_slot_imported(#[trigger] stored_column(out@, x), map@, x) by {
            match stored_column(out@, x) {
                Some(_) => {
                    let j = choose|j: int| 0 <= j < i && xs@[j] == x;
                    assert(xs@.contains(x));
                },
                None => {
                    if map@.contains_key(x) {
                        assert(xs@.contains(x));
                        let j = choose|j: int| 0 <= j < xs@.len() && xs@[j] == x;
                        assert(0 <= j < i && xs@[j] == x);
                    }
                },
            }
        }
    }
    out
}

/// The stored sheet can be read.
pub open spec fn sheet_importable(stored: current::Sheet) -> bool {
    &&& uuid_value(stored.id.id@) is Some
    &&& columns_importable(stored.columns@)
    &&& code_runs_importable(stored.code_runs@)
}

/// Every number of the stored sheet prints as itself.
pub open spec fn sheet_canonical(stored: current::Sheet) -> bool {
    columns_canonical(stored.columns@) && code_runs_canonical(stored.code_runs@)
}

/// `sheet` is what the stored sheet stands for.
pub open spec fn sheet_imported(stored: current::Sheet, sheet: Sheet) -> bool {
    &&& uuid_value(stored.id.id@) == Some(sheet.id.id)
    &&& sheet.name == stored.name
    &&& sheet.color == stored.color
    &&& sheet.order == stored.order
    &&& offsets_imported(stored.offsets.column_widths@, sheet.offsets.column_widths@)
    &&& offsets_imported(stored.offsets.row_heights@, sheet.offsets.row_heights@)
    &&& borders_imported(stored.borders.cells@, sheet.borders@)
    &&& code_runs_imported(stored.code_runs@, sheet.code_runs@)
    &&& columns_imported(stored.columns@, sheet.columns@)
}

/// `e` is the error of the stored sheet: that its id is no UUID, or else
/// that of its columns, or else that of its code runs.
pub open spec fn sheet_refused(stored: current::Sheet, e: FileError) -> bool {
    if uuid_value(stored.id.id@) is None {
        e == FileError::BadSheetId(stored.id.id)
    } else {
        ||| columns_refused(stored.columns@, e)
        ||| (columns_importable(stored.columns@) && code_runs_refused(stored.code_runs@, e))
    }
}

/// Reads a sheet. Its bounds are computed from what was read.
pub fn import_sheet(stored: &current::Sheet) -> (r: Result<Sheet, FileError>)
    ensures
        sheet_importable(*stored) ==> (r matches Ok(sheet) && sheet_imported(*stored, sheet)
            && sheet.wf() && sheet.storable() && sheet.bounds_current()),
        !sheet_importable(*stored) ==> r is Err,
        r matches Err(e) ==> sheet_refused(*stored, e),
{
    let id = match SheetId::from_str(stored.id.id.as_str()) {
        Some(id) => id,
        None => {
            return Err(FileError::BadSheetId(stored.id.id.clone()));
        },
    };
    let columns = import_columns(&stored.columns)?;
    let code_runs = import_code_runs(&stored.code_runs)?;
    let mut sheet = Sheet {
        id,
        name: stored.name.clone(),
        color: clone_opt_string(&stored.color),
        order: stored.order.clone(),
        columns,
        code_runs,
        validations: Validations::new(),
        offsets: SheetOffsets {
            column_widths: import_offsets(&stored.offsets.column_widths),
            row_heights: import_offsets(&stored.offsets.row_heights),
        },
        borders: import_borders(&stored.borders.cells),
        data_bounds: GridBounds::Empty,
        format_bounds: GridBounds::Empty,
    };
    proof {
        assert(runs_storable(sheet.code_runs@)) by {
            assert forall|i: int| 0 <= i < sheet.code_runs@.len() implies result_storable(
                (#[trigger] sheet.code_runs@[i]).1.result,
            ) by {
                lemma_imported_result_storable(stored.code_runs@[i].1.result, sheet.code_runs@[i].1.result);
            }
        }
    }
    sheet.recalculate_bounds();
    Ok(sheet)
}

/// A result that was read holds only numbers that print as themselves.
proof fn lemma_imported_result_storable(stored: current::CodeRunResult, result: CodeRunResult)
    requires
        result_importable(stored),
        result_imported(stored, result),
    ensures
        result_storable(result),
{
    match stored {
        current::CodeRunResult::Output(current::OutputValue::Array(sa)) => {
            match result {
                CodeRunResult::Output(Value::Array(a)) => {
                    assert forall|i: int| 0 <= i < a.cells().len() implies (
                    #[trigger] a.cells()[i]).wf() by {
                        assert(value_imported(sa.values@[i], a.cells()[i]));
                        assert(import_error(sa.values@[i]) is None);
                        lemma_imported_value_wf(sa.values@[i], a.cells()[i]);
                    }
                },
                _ => {},
            }
        },
        current::CodeRunResult::Output(current::OutputValue::Single(sv)) => {
            match result {
                CodeRunResult::Output(Value::Single(v)) => {
                    lemma_imported_value_wf(sv, v);
                },
                _ => {},
            }
        },
        _ => {},
    }
}

/// A value that was read holds only numbers that print as themselves.
proof fn lemma_imported_value_wf(stored: current::CellValue, value: CellValue)
    requires
        import_error(stored) is None,
        value_imported(stored, value),
    ensures
        value.wf(),
{
}

/// Writes a sheet to the file schema.
pub fn export_sheet(sheet: &Sheet) -> (stored: current::Sheet)
    requires
        sheet.wf(),
        sheet.numbers_storable(),
    ensures
        sheet_importable(stored),
        sheet_canonical(stored),
        sheet_imported(stored, *sheet),
{
    current::Sheet {
        id: current::Id { id: sheet.id.to_string() },
        name: sheet.name.clone(),
        color: clone_opt_string(&sheet.color),
        order: sheet.order.clone(),
        offsets: current::Offsets {
            column_widths: export_offsets(&sheet.offsets.column_widths),
            row_heights: export_offsets(&sheet.offsets.row_heights),
        },
        columns: export_columns(&sheet.columns),
        borders: current::Borders { cells: export_borders(&sheet.borders) },
        code_runs: export_code_runs(&sheet.code_runs),
    }
}

/// The stored grid can be read.
pub open spec fn importable(schema: current::GridSchema) -> bool {
    forall|i: int| 0 <= i < schema.sheets@.len() ==> sheet_importable(#[trigger] schema.sheets@[i])
}

/// Every number of the stored grid prints as itself.
pub open spec fn canonical(schema: current::GridSchema) -> bool {
    forall|i: int| 0 <= i < schema.sheets@.len() ==> sheet_canonical(#[trigger] schema.sheets@[i])
}

/// `grid` is what the stored grid stands for: its sheets, one by one.
pub open spec fn imported(schema: current::GridSchema, grid: Grid) -> bool {
    &&& grid.sheets@.len() == schema.sheets@.len()
    &&& forall|i: int|
        0 <= i < schema.sheets@.len() ==> sheet_imported(schema.sheets@[i], #[trigger] grid.sheets@[i])
}

/// `e` is the error of the first stored sheet that cannot be read.
pub open spec fn refused(schema: current::GridSchema, e: FileError) -> bool {
    exists|i: int|
        {
            &&& 0 <= i < schema.sheets@.len()
            &&& forall|j: int| 0 <= j < i ==> sheet_importable(#[trigger] schema.sheets@[j])
            &&& sheet_refused(#[trigger] schema.sheets@[i], e)
        }
}

/// Reads a grid from a file in the latest schema. A file that holds a key,
/// a number, an id, a run, an output size or a code run position that cannot
/// be made sense of is refused as a whole.
pub fn import(schema: &current::GridSchema) -> (r: Result<Grid, FileError>)
    ensures
        importable(*schema) ==> (r matches Ok(grid) && imported(*schema, grid) && grid.wf()
            && grid.storable() && forall|i: int|
            0 <= i < grid.sheets@.len() ==> (#[trigger] grid.sheets@[i]).bounds_current()),
        !importable(*schema) ==> r is Err,
        r matches Err(e) ==> refused(*schema, e),
{
    let mut sheets: Vec<Sheet> = Vec::new();
    let mut i: usize = 0;
    while i < schema.sheets.len()
        invariant
            i <= schema.sheets@.len(),
            sheets@.len() == i,
            forall|j: int| 0 <= j < i ==> sheet_importable(#[trigger] schema.sheets@[j]),
            forall|j: int|
                0 <= j < i ==> sheet_imported(schema.sheets@[j], #[trigger] sheets@[j])
                    && sheets@[j].wf() && sheets@[j].storable() && sheets@[j].bounds_current(),
        decreases schema.sheets.len() - i,
    {
        match import_sheet(&schema.sheets[i]) {
            Ok(sheet) => {
                sheets.push(sheet);
            },
            Err(e) => {
                return Err(e);
            },
        }
        i += 1;
    }
    Ok(Grid { sheets })
}

/// Writes a grid to the latest schema. Reading what was written gives the
/// same grid again, but for validations, which files do not hold: the file
/// can be read, and what it stands for is this grid. The numbers of the grid
/// must print as themselves (see [`try_export`]).
pub fn export(grid: &Grid) -> (schema: current::GridSchema)
    requires
        grid.wf(),
        grid.numbers_storable(),
    ensures
        importable(schema),
        canonical(schema),
        imported(schema, *grid),
        schema.version matches Some(v) && v@ == crate::grid::file::CURRENT_VERSION@,
{
    let mut sheets: Vec<current::Sheet> = Vec::new();
    let mut i: usize = 0;
    while i < grid.sheets.len()
        invariant
            i <= grid.sheets@.len(),
            sheets@.len() == i,
            grid.wf(),
            grid.numbers_storable(),
            forall|j: int|
                0 <= j < i ==> sheet_importable(#[trigger] sheets@[j]) && sheet_canonical(sheets@[j])
                    && sheet_imported(sheets@[j], grid.sheets@[j]),
        decreases grid.sheets.len() - i,
    {
        proof {
            assert(grid.sheets@[i as int].wf());
            assert(grid.sheets@[i as int].numbers_storable());
        }
        sheets.push(export_sheet(&grid.sheets[i]));
        i += 1;
    }
    current::GridSchema { sheets, version: Some(String::from_str(crate::grid::file::CURRENT_VERSION)) }
}

/// A value stored among canonical values is canonical.
proof fn lemma_stored_cell_canonical(values: Seq<(String, current::CellValue)>, y: i64)
    requires
        values_canonical(values),
    ensures
        stored_cell(values, y) matches Some(sv) ==> stored_canonical(sv),
    decreases values.len(),
{
    if values.len() > 0 {
        if text_i64(values.last().0@) == Some(y) {
            assert(stored_canonical(values[values.len() - 1].1));
        } else {
            assert forall|i: int| 0 <= i < values.drop_last().len() implies stored_canonical(
                (#[trigger] values.drop_last()[i]).1,
            ) by {
                assert(values.drop_last()[i] == values[i]);
            }
            lemma_stored_cell_canonical(values.drop_last(), y);
        }
    }
}

/// A column stored among canonical columns is canonical.
proof fn lemma_stored_column_canonical(columns: Seq<(i64, current::Column)>, x: i64)
    requires
        columns_canonical(columns),
    ensures
        stored_column(columns, x) matches Some(sc) ==> values_canonical(sc.values@),
    decreases columns.len(),
{
    if columns.len() > 0 {
        if columns.last().0 == x {
            assert(values_canonical(columns[columns.len() - 1].1.values@));
        } else {
            assert forall|i: int| 0 <= i < columns.drop_last().len() implies values_canonical(
                (#[trigger] columns.drop_last()[i]).1.values@,
            ) by {
                assert(columns.drop_last()[i] == columns[i]);
            }
            lemma_stored_column_canonical(columns.drop_last(), x);
        }
    }
}

/// Two maps that hold the sizes of the same entries are the same map.
proof fn lemma_same_entries(entries: Seq<(i64, u64)>, a: Map<i64, u64>, b: Map<i64, u64>)
    requires
        offsets_imported(entries, a),
        offsets_imported(entries, b),
    ensures
        a =~= b,
{
    assert forall|k: i64| #[trigger] a.dom().contains(k) == b.dom().contains(k) by {
        assert(entry_of(a, k) == stored_offset(entries, k));
        assert(entry_of(b, k) == stored_offset(entries, k));
    }
    assert(a.dom() =~= b.dom());
    assert forall|k: i64| a.dom().contains(k) implies #[trigger] a[k] == b[k] by {
        assert(entry_of(a, k) == stored_offset(entries, k));
        assert(entry_of(b, k) == stored_offset(entries, k));
    }
}

/// Two results that a canonical stored result stands for are alike.
proof fn lemma_result_unique(stored: current::CodeRunResult, a: CodeRunResult, b: CodeRunResult)
    requires
        result_canonical(stored),
        result_imported(stored, a),
        result_imported(stored, b),
    ensures
        a.alike(b),
{
    match stored {
        current::CodeRunResult::Output(current::OutputValue::Array(sa)) => {
            match (a, b) {
                (CodeRunResult::Output(Value::Array(x)), CodeRunResult::Output(Value::Array(y))) => {
                    assert forall|i: int| 0 <= i < x.cells().len() implies x.cells()[i]
                        == y.cells()[i] by {
                        assert(stored_canonical(sa.values@[i]));
                        assert(value_imported(sa.values@[i], x.cells()[i]));
                        assert(value_imported(sa.values@[i], y.cells()[i]));
                    }
                    assert(x.cells() =~= y.cells());
                },
                _ => {},
            }
        },
        _ => {},
    }
}

/// Two sheets that a canonical stored sheet stands for show the same.
pub proof fn lemma_sheet_import_unique(stored: current::Sheet, a: Sheet, b: Sheet)
    requires
        sheet_canonical(stored),
        sheet_imported(stored, a),
        sheet_imported(stored, b),
        a.wf(),
        a.validations.validations@.len() == 0,
        b.validations.validations@.len() == 0,
    ensures
        a.same_content(b),
{
    assert forall|p: Pos| #[trigger] a.cell(p) == b.cell(p) by {
        lemma_stored_column_canonical(stored.columns@, p.x);
        assert(column_slot_imported(stored_column(stored.columns@, p.x), a.columns@, p.x));
        assert(column_slot_imported(stored_column(stored.columns@, p.x), b.columns@, p.x));
        match stored_column(stored.columns@, p.x) {
            Some(sc) => {
                lemma_stored_cell_canonical(sc.values@, p.y);
                assert(cell_imported(
                    stored_cell(sc.values@, p.y),
                    cell_of_map(a.columns@[p.x].values@, p.y),
                ));
                assert(cell_imported(
                    stored_cell(sc.values@, p.y),
                    cell_of_map(b.columns@[p.x].values@, p.y),
                ));
            },
            None => {},
        }
    }
    assert forall|p: Pos| #[trigger] a.format_model(p) == b.format_model(p) by {
        assert(column_slot_imported(stored_column(stored.columns@, p.x), a.columns@, p.x));
        assert(column_slot_imported(stored_column(stored.columns@, p.x), b.columns@, p.x));
        match stored_column(stored.columns@, p.x) {
            Some(sc) => {
                let ca = a.columns@[p.x];
                let cb = b.columns@[p.x];
                let z = p.y as int;
                assert(ca.align.model_at(z) == cb.align.model_at(z));
                assert(ca.wrap.model_at(z) == cb.wrap.model_at(z));
                assert(ca.numeric_format.model_at(z) == cb.numeric_format.model_at(z));
                assert(ca.numeric_decimals.model_at(z) == cb.numeric_decimals.model_at(z));
                assert(ca.numeric_commas.model_at(z) == cb.numeric_commas.model_at(z));
                assert(ca.bold.model_at(z) == cb.bold.model_at(z));
                assert(ca.italic.model_at(z) == cb.italic.model_at(z));
                assert(ca.text_color.model_at(z) == cb.text_color.model_at(z));
                assert(ca.fill_color.model_at(z) == cb.fill_color.model_at(z));
                assert(ca.render_size.model_at(z) == cb.render_size.model_at(z));
            },
            None => {},
        }
    }
    assert forall|i: int| 0 <= i < a.code_runs@.len() implies (#[trigger] a.code_runs@[i]).0
        == b.code_runs@[i].0 && a.code_runs@[i].1.alike(b.code_runs@[i].1) by {
        let sr = stored.code_runs@[i].1;
        let ra = a.code_runs@[i].1;
        let rb = b.code_runs@[i].1;
        assert(code_run_imported(sr, ra) && code_run_imported(sr, rb));
        assert(result_canonical(sr.result));
        lemma_result_unique(sr.result, ra.result, rb.result);
        assert(ra.cells_accessed@ =~= rb.cells_accessed@) by {
            assert forall|k: int| 0 <= k < ra.cells_accessed@.len() implies ra.cells_accessed@[k]
                == rb.cells_accessed@[k] by {
                assert(rect_imported(sr.cells_accessed@[k], ra.cells_accessed@[k]));
                assert(rect_imported(sr.cells_accessed@[k], rb.cells_accessed@[k]));
            }
        }
    }
    assert forall|p: Pos| crate::grid::sheet::runs_alike(
        #[trigger] a.code_run_at(p),
        b.code_run_at(p),
    ) by {
        crate::grid::sheet::code::lemma_run_at_alike(a.code_runs@, b.code_runs@, p);
    }
    lemma_same_entries(
        stored.offsets.column_widths@,
        a.offsets.column_widths@,
        b.offsets.column_widths@,
    );
    lemma_same_entries(stored.offsets.row_heights@, a.offsets.row_heights@, b.offsets.row_heights@);
    assert(a.borders@ =~= b.borders@);
    assert(a.validations.validations@ =~= b.validations.validations@);
    assert forall|id: u128|
        crate::grid::sheet::validations::validations_alike(
            #[trigger] a.validations.by_id(id),
            b.validations.by_id(id),
        ) by {}
}

/// Reading is a function of the file: two grids without validations that a
/// canonical stored grid stands for show the same. With what [`export`] and [`import`] promise,
/// this says that a grid which is written and read again is the grid it was.
pub proof fn lemma_import_unique(schema: current::GridSchema, a: Grid, b: Grid)
    requires
        canonical(schema),
        imported(schema, a),
        imported(schema, b),
        a.wf(),
        forall|i: int| 0 <= i < a.sheets@.len() ==> (#[trigger] a.sheets@[i]).validations.validations@.len() == 0,
        forall|i: int| 0 <= i < b.sheets@.len() ==> (#[trigger] b.sheets@[i]).validations.validations@.len() == 0,
    ensures
        a.same_content(b),
{
    assert forall|i: int| 0 <= i < a.sheets@.len() implies (#[trigger] a.sheets@[i]).same_content(
        b.sheets@[i],
    ) by {
        lemma_sheet_import_unique(schema.sheets@[i], a.sheets@[i], b.sheets@[i]);
    }
}

/// Writes a grid to the latest schema, unless one of its numbers does not
/// print as itself: then nothing is written.
pub fn try_export(grid: &Grid) -> (r: Option<current::GridSchema>)
    requires
        grid.wf(),
    ensures
        r is Some <==> grid.numbers_storable(),
        r matches Some(schema) ==> importable(schema) && canonical(schema) && imported(
            schema,
            *grid,
        ),
{
    if grid.is_numbers_storable() {
        Some(export(grid))
    } else {
        None
    }
}

/// Writes a grid to the latest schema and reads it back. The grid that comes
/// back shows the same as the one that went in.
pub fn round_trip(grid: &Grid) -> (r: Result<Grid, FileError>)
    requires
        grid.wf(),
        grid.storable(),
    ensures
        r matches Ok(back) && back.same_content(*grid) && back.wf() && back.storable(),
{
    proof {
        assert forall|i: int| 0 <= i < grid.sheets@.len() implies (
        #[trigger] grid.sheets@[i]).numbers_storable() by {
            assert(grid.sheets@[i].storable());
        }
    }
    let schema = export(grid);
    let r = import(&schema);
    proof {
        if r is Ok {
            let back = r->Ok_0;
            assert forall|i: int| 0 <= i < back.sheets@.len() implies (
            #[trigger] back.sheets@[i]).validations.validations@.len() == 0 by {
                assert(back.sheets@[i].storable());
            }
            assert forall|i: int| 0 <= i < grid.sheets@.len() implies (
            #[trigger] grid.sheets@[i]).validations.validations@.len() == 0 by {
                assert(grid.sheets@[i].storable());
            }
            lemma_import_unique(schema, back, *grid);
        }
    }
    r
}

} // verus!
