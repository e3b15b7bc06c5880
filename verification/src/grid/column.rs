//! One column of a sheet: its cell values by row.

use crate::grid::formatting::{
    CellAlign, CellFormat, CellWrap, FormatModel, NumericFormat, RenderSize,
};
use crate::grid::track::{opt_model, Track, TrackValue};
use crate::values::isblank::IsBlank;
use crate::values::CellValue;
use std::collections::BTreeMap;
use vstd::prelude::*;
use vstd::std_specs::cmp::OrdSpec;
use vstd::std_specs::iter::IteratorSpec;

verus! {

broadcast use {vstd::std_specs::btree::group_btree_axioms, vstd::laws_cmp::group_laws_cmp};

/// The cells of one column, keyed by row, and the formatting of its rows.
/// Blank cells are not stored.
#[derive(Debug, PartialEq, Eq)]
pub struct Column {
    pub x: i64,
    pub values: BTreeMap<i64, CellValue>,
    pub align: Track<CellAlign>,
    pub wrap: Track<CellWrap>,
    pub numeric_format: Track<NumericFormat>,
    pub numeric_decimals: Track<i16>,
    pub numeric_commas: Track<bool>,
    pub bold: Track<bool>,
    pub italic: Track<bool>,
    pub text_color: Track<String>,
    pub fill_color: Track<String>,
    pub render_size: Track<RenderSize>,
}

/// The smallest span that holds both.
pub open spec fn spec_join_span(a: Option<(i64, i64)>, b: Option<(i64, i64)>) -> Option<(i64, i64)> {
    match (a, b) {
        (None, _) => b,
        (_, None) => a,
        (Some((a0, a1)), Some((b0, b1))) => Some(
            (
                if a0 <= b0 {
                    a0
                } else {
                    b0
                },
                if a1 >= b1 {
                    a1
                } else {
                    b1
                },
            ),
        ),
    }
}

/// The smallest span that holds both.
pub fn join_span(a: Option<(i64, i64)>, b: Option<(i64, i64)>) -> (r: Option<(i64, i64)>)
    ensures
        r == spec_join_span(a, b),
{
    match (a, b) {
        (None, _) => b,
        (_, None) => a,
        (Some((a0, a1)), Some((b0, b1))) => Some(
            (
                if a0 <= b0 {
                    a0
                } else {
                    b0
                },
                if a1 >= b1 {
                    a1
                } else {
                    b1
                },
            ),
        ),
    }
}

impl Column {
    /// No blank cell is stored, and every track is well formed.
    pub open spec fn wf(self) -> bool {
        &&& forall|y: i64| #[trigger]
            self.values@.contains_key(y) ==> self.values@[y] != CellValue::Blank
        &&& self.align.wf()
        &&& self.wrap.wf()
        &&& self.numeric_format.wf()
        &&& self.numeric_decimals.wf()
        &&& self.numeric_commas.wf()
        &&& self.bold.wf()
        &&& self.italic.wf()
        &&& self.text_color.wf()
        &&& self.fill_color.wf()
        &&& self.render_size.wf()
    }

    /// The value stored in row `y`, if any.
    pub open spec fn value_at(self, y: i64) -> Option<CellValue> {
        if self.values@.contains_key(y) {
            Some(self.values@[y])
        } else {
            None
        }
    }

    /// The formatting of row `y`.
    pub open spec fn format_model(self, y: int) -> FormatModel {
        FormatModel {
            align: self.align.model_at(y),
            wrap: self.wrap.model_at(y),
            numeric_format: self.numeric_format.model_at(y),
            numeric_decimals: self.numeric_decimals.model_at(y),
            numeric_commas: self.numeric_commas.model_at(y),
            bold: self.bold.model_at(y),
            italic: self.italic.model_at(y),
            text_color: self.text_color.model_at(y),
            fill_color: self.fill_color.model_at(y),
            render_size: self.render_size.model_at(y),
        }
    }

    /// An empty column at `x`.
    pub fn new(x: i64) -> (column: Column)
        ensures
            column.x == x,
            column.values@ == Map::<i64, CellValue>::empty(),
            forall|y: int| column.format_model(y) == FormatModel::none(),
            column.wf(),
    {
        Column {
            x,
            values: BTreeMap::new(),
            align: Track::new(),
            wrap: Track::new(),
            numeric_format: Track::new(),
            numeric_decimals: Track::new(),
            numeric_commas: Track::new(),
            bold: Track::new(),
            italic: Track::new(),
            text_color: Track::new(),
            fill_color: Track::new(),
            render_size: Track::new(),
        }
    }

    /// A column with the same values and the same formatting.
    pub fn duplicate(&self) -> (r: Column)
        requires
            self.wf(),
        ensures
            r.wf(),
            r.x == self.x,
            r.values@ == self.values@,
            forall|z: int| #[trigger] r.format_model(z) == self.format_model(z),
    {
        Column {
            x: self.x,
            values: self.values.clone(),
            align: self.align.duplicate(),
            wrap: self.wrap.duplicate(),
            numeric_format: self.numeric_format.duplicate(),
            numeric_decimals: self.numeric_decimals.duplicate(),
            numeric_commas: self.numeric_commas.duplicate(),
            bold: self.bold.duplicate(),
            italic: self.italic.duplicate(),
            text_color: self.text_color.duplicate(),
            fill_color: self.fill_color.duplicate(),
            render_size: self.render_size.duplicate(),
        }
    }

    /// The value stored in row `y`, if any.
    pub fn get(&self, y: i64) -> (r: Option<&CellValue>)
        ensures
            self.value_at(y) matches Some(v) ==> r == Some(&v),
            self.value_at(y) is None ==> r is None,
    {
        self.values.get(&y)
    }

    /// Stores `value` in row `y`, or clears the row where `value` is blank.
    /// Returns what the row held before.
    pub fn set(&mut self, y: i64, value: CellValue) -> (old_value: Option<CellValue>)
        requires
            old(self).wf(),
        ensures
            final(self).wf(),
            final(self).x == old(self).x,
            forall|z: int| final(self).format_model(z) == old(self).format_model(z),
            old_value == old(self).value_at(y),
            value == CellValue::Blank ==> final(self).values@ == old(self).values@.remove(y),
            value != CellValue::Blank ==> final(self).values@ == old(self).values@.insert(y, value),
    {
        match value {
            CellValue::Blank => self.values.remove(&y),
            _ => self.values.insert(y, value),
        }
    }

    /// Sets or clears one formatting attribute of row `y`. Returns the same
    /// attribute with the value that the row had before.
    pub fn set_format(&mut self, y: i64, change: CellFormat) -> (previous: CellFormat)
        requires
            old(self).wf(),
        ensures
            final(self).wf(),
            final(self).x == old(self).x,
            final(self).values@ == old(self).values@,
            forall|z: int| z != y ==> #[trigger] final(self).format_model(z) == old(self).format_model(z),
            final(self).format_model(y as int) == old(self).format_model(y as int).with(change),
            previous.same_attribute(change),
            old(self).format_model(y as int).agrees(previous),
    {
        match change {
            CellFormat::Align(v) => CellFormat::Align(self.align.set(y, v)),
            CellFormat::Wrap(v) => CellFormat::Wrap(self.wrap.set(y, v)),
            CellFormat::NumericFormat(v) => CellFormat::NumericFormat(self.numeric_format.set(y, v)),
            CellFormat::NumericDecimals(v) => CellFormat::NumericDecimals(
                self.numeric_decimals.set(y, v),
            ),
            CellFormat::NumericCommas(v) => CellFormat::NumericCommas(self.numeric_commas.set(y, v)),
            CellFormat::Bold(v) => CellFormat::Bold(self.bold.set(y, v)),
            CellFormat::Italic(v) => CellFormat::Italic(self.italic.set(y, v)),
            CellFormat::TextColor(v) => CellFormat::TextColor(self.text_color.set(y, v)),
            CellFormat::FillColor(v) => CellFormat::FillColor(self.fill_color.set(y, v)),
            CellFormat::RenderSize(v) => CellFormat::RenderSize(self.render_size.set(y, v)),
        }
    }

    /// Whether no blank cell is stored and every track is well formed.
    pub fn is_wf(&self) -> (b: bool)
        ensures
            b == self.wf(),
    {
        if !(self.align.is_wf() && self.wrap.is_wf() && self.numeric_format.is_wf()
            && self.numeric_decimals.is_wf() && self.numeric_commas.is_wf() && self.bold.is_wf()
            && self.italic.is_wf() && self.text_color.is_wf() && self.fill_color.is_wf()
            && self.render_size.is_wf()) {
            return false;
        }
        let ys = keys_between(&self.values, i64::MIN, i64::MAX);
        let mut i: usize = 0;
        while i < ys.len()
            invariant
                i <= ys@.len(),
                forall|k: i64| #[trigger] ys@.contains(k) <==> self.values@.contains_key(k),
                forall|j: int| 0 <= j < i ==> self.values@[#[trigger] ys@[j]] != CellValue::Blank,
            decreases ys.len() - i,
        {
            let y = ys[i];
            assert(ys@.contains(y));
            match self.values.get(&y) {
                Some(v) => {
                    if v.is_blank() {
                        return false;
                    }
                },
                None => {},
            }
            i += 1;
        }
        proof {
            assert forall|y: i64| #[trigger] self.values@.contains_key(y) implies self.values@[y]
                != CellValue::Blank by {
                assert(ys@.contains(y));
                let j = choose|j: int| 0 <= j < ys@.len() && ys@[j] == y;
                assert(self.values@[ys@[j]] != CellValue::Blank);
            }
        }
        true
    }

    /// Whether every number in the column prints as itself.
    pub fn is_values_storable(&self) -> (b: bool)
        requires
            self.wf(),
        ensures
            b == crate::grid::file::current::cells_wf(self.values@),
    {
        let ys = keys_between(&self.values, i64::MIN, i64::MAX);
        let mut i: usize = 0;
        while i < ys.len()
            invariant
                i <= ys@.len(),
                self.wf(),
                forall|k: i64| #[trigger] ys@.contains(k) <==> self.values@.contains_key(k),
                forall|j: int| 0 <= j < i ==> self.values@[#[trigger] ys@[j]].wf(),
            decreases ys.len() - i,
        {
            let y = ys[i];
            assert(ys@.contains(y));
            match self.values.get(&y) {
                Some(v) => {
                    if !v.is_wf() {
                        return false;
                    }
                },
                None => {},
            }
            i += 1;
        }
        proof {
            assert forall|y: i64| #[trigger] self.values@.contains_key(y) implies self.values@[y]
                != CellValue::Blank && self.values@[y].wf() by {
                assert(ys@.contains(y));
                let j = choose|j: int| 0 <= j < ys@.len() && ys@[j] == y;
                assert(self.values@[ys@[j]].wf());
            }
        }
        true
    }

    /// Clears every row from `lo` to `hi`, both included.
    pub fn clear_rows(&mut self, lo: i64, hi: i64)
        requires
            old(self).wf(),
        ensures
            final(self).wf(),
            final(self).x == old(self).x,
            forall|z: int| #[trigger] final(self).format_model(z) == old(self).format_model(z),
            forall|y: i64| #[trigger]
                final(self).value_at(y) == if lo <= y <= hi {
                    None
                } else {
                    old(self).value_at(y)
                },
    {
        let rows = keys_between(&self.values, lo, hi);
        let ghost before = *self;
        let mut i: usize = 0;
        while i < rows.len()
            invariant
                i <= rows@.len(),
                self.wf(),
                self.x == before.x,
                forall|k: i64| #[trigger]
                    rows@.contains(k) <==> before.values@.contains_key(k) && lo <= k <= hi,
                forall|z: int| #[trigger] self.format_model(z) == before.format_model(z),
                forall|y: i64| #[trigger]
                    self.value_at(y) == if exists|j: int| 0 <= j < i && rows@[j] == y {
                        None
                    } else {
                        before.value_at(y)
                    },
            decreases rows.len() - i,
        {
            let y = rows[i];
            let ghost mid = *self;
            self.values.remove(&y);
            i += 1;
            proof {
                assert forall|z: int| #[trigger] self.format_model(z) == before.format_model(z) by {
                    assert(mid.format_model(z) == before.format_model(z));
                }
                assert forall|z: i64| #[trigger]
                    self.value_at(z) == if exists|j: int| 0 <= j < i && rows@[j] == z {
                        None
                    } else {
                        before.value_at(z)
                    } by {
                    assert(mid.value_at(z) == if exists|j: int| 0 <= j < i - 1 && rows@[j] == z {
                        None
                    } else {
                        before.value_at(z)
                    });
                    if z == y {
                        assert(rows@[i - 1] == z);
                    } else {
                        if exists|j: int| 0 <= j < i && rows@[j] == z {
                            let j = choose|j: int| 0 <= j < i && rows@[j] == z;
                            assert(0 <= j < i - 1 && rows@[j] == z);
                        }
                    }
                }
            }
        }
        proof {
            assert forall|y: i64| #[trigger]
                self.value_at(y) == if lo <= y <= hi {
                    None
                } else {
                    before.value_at(y)
                } by {
                if exists|j: int| 0 <= j < rows@.len() && rows@[j] == y {
                    let j = choose|j: int| 0 <= j < rows@.len() && rows@[j] == y;
                    assert(rows@.contains(y));
                } else {
                    if before.values@.contains_key(y) && lo <= y <= hi {
                        assert(rows@.contains(y));
                    }
                }
            }
        }
    }

    /// The formatting attribute of row `y` that `kind` speaks of.
    pub fn get_format(&self, y: i64, kind: &CellFormat) -> (r: CellFormat)
        requires
            self.wf(),
        ensures
            r.same_attribute(*kind),
            self.format_model(y as int).agrees(r),
    {
        match kind {
            CellFormat::Align(_) => CellFormat::Align(dup(self.align.get(y))),
            CellFormat::Wrap(_) => CellFormat::Wrap(dup(self.wrap.get(y))),
            CellFormat::NumericFormat(_) => CellFormat::NumericFormat(
                dup(self.numeric_format.get(y)),
            ),
            CellFormat::NumericDecimals(_) => CellFormat::NumericDecimals(
                dup(self.numeric_decimals.get(y)),
            ),
            CellFormat::NumericCommas(_) => CellFormat::NumericCommas(
                dup(self.numeric_commas.get(y)),
            ),
            CellFormat::Bold(_) => CellFormat::Bold(dup(self.bold.get(y))),
            CellFormat::Italic(_) => CellFormat::Italic(dup(self.italic.get(y))),
            CellFormat::TextColor(_) => CellFormat::TextColor(dup(self.text_color.get(y))),
            CellFormat::FillColor(_) => CellFormat::FillColor(dup(self.fill_color.get(y))),
            CellFormat::RenderSize(_) => CellFormat::RenderSize(dup(self.render_size.get(y))),
        }
    }

    /// The first and the last row that hold a value.
    pub fn value_span(&self) -> (r: Option<(i64, i64)>)
        ensures
            r is None <==> self.values@.dom() =~= Set::<i64>::empty(),
            r matches Some((lo, hi)) ==> self.values@.contains_key(lo) && self.values@.contains_key(
                hi,
            ) && forall|y: i64| #[trigger] self.values@.contains_key(y) ==> lo <= y <= hi,
    {
        key_span(&self.values)
    }

    /// Whether row `y` carries any formatting.
    pub open spec fn formatted(self, y: int) -> bool {
        self.format_model(y) != FormatModel::none()
    }

    /// The first and the last row that carry any formatting.
    pub fn format_span(&self) -> (r: Option<(i64, i64)>)
        requires
            self.wf(),
        ensures
            is_span_of(r, |z: int| self.formatted(z)),
    {
        let ghost p0 = |z: int| false;
        let ghost p1 = |z: int| p0(z) || self.align.model_at(z) is Some;
        let ghost p2 = |z: int| p1(z) || self.wrap.model_at(z) is Some;
        let ghost p3 = |z: int| p2(z) || self.numeric_format.model_at(z) is Some;
        let ghost p4 = |z: int| p3(z) || self.numeric_decimals.model_at(z) is Some;
        let ghost p5 = |z: int| p4(z) || self.numeric_commas.model_at(z) is Some;
        let ghost p6 = |z: int| p5(z) || self.bold.model_at(z) is Some;
        let ghost p7 = |z: int| p6(z) || self.italic.model_at(z) is Some;
        let ghost p8 = |z: int| p7(z) || self.text_color.model_at(z) is Some;
        let ghost p9 = |z: int| p8(z) || self.fill_color.model_at(z) is Some;
        let ghost p10 = |z: int| p9(z) || self.render_size.model_at(z) is Some;
        let span = None;
        let span = add_track_span(span, &self.align, Ghost(p0), Ghost(p1));
        let span = add_track_span(span, &self.wrap, Ghost(p1), Ghost(p2));
        let span = add_track_span(span, &self.numeric_format, Ghost(p2), Ghost(p3));
        let span = add_track_span(span, &self.numeric_decimals, Ghost(p3), Ghost(p4));
        let span = add_track_span(span, &self.numeric_commas, Ghost(p4), Ghost(p5));
        let span = add_track_span(span, &self.bold, Ghost(p5), Ghost(p6));
        let span = add_track_span(span, &self.italic, Ghost(p6), Ghost(p7));
        let span = add_track_span(span, &self.text_color, Ghost(p7), Ghost(p8));
        let span = add_track_span(span, &self.fill_color, Ghost(p8), Ghost(p9));
        let span = add_track_span(span, &self.render_size, Ghost(p9), Ghost(p10));
        proof {
            let target = |z: int| self.formatted(z);
            assert forall|z: int| #[trigger] target(z) == p10(z) by {}
        }
        span
    }
}

/// A value with the same model as the one referred to, if any.
fn dup<T: TrackValue>(value: Option<&T>) -> (r: Option<T>)
    ensures
        value matches Some(v) ==> opt_model(r) == Some(v.model()),
        value is None ==> r is None,
{
    match value {
        Some(v) => Some(v.duplicate()),
        None => None,
    }
}

/// `span` is the span of the rows that satisfy `rows`: nothing where no row
/// does, else the first and the last such row.
pub open spec fn is_span_of(span: Option<(i64, i64)>, rows: spec_fn(int) -> bool) -> bool {
    match span {
        None => forall|z: int| !#[trigger] rows(z),
        Some((lo, hi)) => rows(lo as int) && rows(hi as int) && forall|z: int| #[trigger]
            rows(z) ==> lo <= z <= hi,
    }
}

/// Widens the span of the rows in `before` by the rows of one more track.
fn add_track_span<T: TrackValue>(
    span: Option<(i64, i64)>,
    track: &Track<T>,
    Ghost(before): Ghost<spec_fn(int) -> bool>,
    Ghost(after): Ghost<spec_fn(int) -> bool>,
) -> (r: Option<(i64, i64)>)
    requires
        track.wf(),
        is_span_of(span, before),
        forall|z: int| #[trigger] after(z) == (before(z) || track.model_at(z) is Some),
    ensures
        is_span_of(r, after),
{
    let other = track.span();
    let r = join_span(span, other);
    proof {
        match r {
            None => {
                assert forall|z: int| !#[trigger] after(z) by {
                    assert(!before(z));
                    assert(track.model_at(z) is None);
                }
            },
            Some((lo, hi)) => {
                assert(after(lo as int));
                assert(after(hi as int));
                assert forall|z: int| #[trigger] after(z) implies lo <= z <= hi by {
                    if before(z) {
                    } else {
                        assert(track.model_at(z) is Some);
                    }
                }
            },
        }
    }
    r
}

/// The least and the greatest key of a map: the first and last populated row.
pub fn key_span<V>(map: &BTreeMap<i64, V>) -> (r: Option<(i64, i64)>)
    ensures
        r is None <==> map@.dom() =~= Set::<i64>::empty(),
        r matches Some((lo, hi)) ==> map@.contains_key(lo) && map@.contains_key(hi) && forall|
            y: i64,
        | #[trigger] map@.contains_key(y) ==> lo <= y <= hi,
{
    let mut span: Option<(i64, i64)> = None;
    let keys = map.keys();
    let ghost all = keys.remaining();
    proof {
        vstd::std_specs::btree::axiom_spec_keys_iter(map);
    }
    for key in it: keys
        invariant
            it.seq() == all,
            all.unref().to_set() == map@.dom(),
            span is None <==> it.index() == 0,
            span matches Some((lo, hi)) ==> map@.contains_key(lo) && map@.contains_key(hi) && forall|
                i: int,
            | 0 <= i < it.index() ==> lo <= *(#[trigger] all[i]) <= hi,
    {
        let y = *key;
        proof {
            let i = it.index();
            assert(all.unref()[i] == y);
            assert(all.unref().to_set().contains(y));
        }
        span = match span {
            None => Some((y, y)),
            Some((lo, hi)) => Some(
                (
                    if y < lo {
                        y
                    } else {
                        lo
                    },
                    if y > hi {
                        y
                    } else {
                        hi
                    },
                ),
            ),
        };
    }
    proof {
        assert forall|y: i64| #[trigger] map@.contains_key(y) implies all.unref().contains(y) by {
            assert(all.unref().to_set().contains(y));
        }
        if span is None {
            assert(all.len() == 0);
            assert(map@.dom() =~= Set::<i64>::empty());
        } else {
            let (lo, hi) = span->0;
            assert forall|y: i64| #[trigger] map@.contains_key(y) implies lo <= y <= hi by {
                assert(all.unref().contains(y));
                let i = choose|i: int| 0 <= i < all.unref().len() && all.unref()[i] == y;
                assert(*all[i] == y);
            }
        }
    }
    span
}

/// Keys that a map hands out in increasing order grow from one to the next.
proof fn lemma_keys_grow(keys: Seq<&i64>)
    requires
        vstd::std_specs::btree::increasing_seq(keys),
    ensures
        forall|i: int, j: int| 0 <= i < j < keys.len() ==> *(#[trigger] keys[i]) < *(#[trigger] keys[j]),
{
    broadcast use {
        vstd::std_specs::btree::group_btree_axioms,
        vstd::laws_cmp::group_laws_cmp,
        vstd::laws_cmp::lemma_ref_obeys_cmp_spec,
    };

    assert(vstd::laws_cmp::obeys_cmp::<i64>());
    assert(vstd::laws_cmp::obeys_cmp::<&i64>());
    vstd::std_specs::btree::axiom_increasing_seq_meaning(keys);
    assert forall|i: int, j: int| 0 <= i < j < keys.len() implies *(#[trigger] keys[i]) < *(
    #[trigger] keys[j]) by {
        assert(OrdSpec::cmp_spec(&keys[i], &keys[j]) is Less);
    }
}

/// The keys of a map from `lo` to `hi`, both included, in increasing
/// order.
pub fn keys_between<V>(map: &BTreeMap<i64, V>, lo: i64, hi: i64) -> (r: Vec<i64>)
    ensures
        forall|k: i64| #[trigger] r@.contains(k) <==> map@.contains_key(k) && lo <= k <= hi,
        forall|i: int, j: int| 0 <= i < j < r@.len() ==> #[trigger] r@[i] < #[trigger] r@[j],
{
    let mut out: Vec<i64> = Vec::new();
    let keys = map.keys();
    let ghost all = keys.remaining();
    proof {
        vstd::std_specs::btree::axiom_spec_keys_iter(map);
        lemma_keys_grow(all);
    }
    for key in it: keys
        invariant
            it.seq() == all,
            all.unref().to_set() == map@.dom(),
            forall|i: int, j: int|
                0 <= i < j < all.len() ==> *(#[trigger] all[i]) < *(#[trigger] all[j]),
            forall|i: int, j: int| 0 <= i < j < out@.len() ==> #[trigger] out@[i] < #[trigger] out@[j],
            forall|k: i64| #[trigger]
                out@.contains(k) <==> (lo <= k <= hi && exists|i: int|
                    0 <= i < it.index() && *(#[trigger] all[i]) == k),
    {
        let y = *key;
        let ghost before = out@;
        let ghost n = it.index();
        if lo <= y && y <= hi {
            out.push(y);
        }
        proof {
            assert forall|a: int, b: int| 0 <= a < b < out@.len() implies #[trigger] out@[a]
                < #[trigger] out@[b] by {
                if b < before.len() {
                    assert(out@[a] == before[a] && out@[b] == before[b]);
                } else {
                    assert(out@[a] == before[a]);
                    assert(before.contains(before[a]));
                    let i = choose|i: int| 0 <= i < n && *(#[trigger] all[i]) == before[a];
                    assert(*all[i] < *all[n]);
                }
            }
            assert forall|k: i64| #[trigger]
                out@.contains(k) <==> (lo <= k <= hi && exists|i: int|
                    0 <= i < n + 1 && *(#[trigger] all[i]) == k) by {
                if out@.contains(k) {
                    let j = choose|j: int| 0 <= j < out@.len() && out@[j] == k;
                    if j < before.len() {
                        assert(before[j] == k);
                        assert(before.contains(k));
                        let i = choose|i: int| 0 <= i < n && *(#[trigger] all[i]) == k;
                        assert(0 <= i < n + 1 && *all[i] == k);
                    } else {
                        assert(*all[n] == k);
                    }
                }
                if lo <= k <= hi && exists|i: int| 0 <= i < n + 1 && *(#[trigger] all[i]) == k {
                    let i = choose|i: int| 0 <= i < n + 1 && *(#[trigger] all[i]) == k;
                    if i < n {
                        assert(before.contains(k));
                        let j = choose|j: int| 0 <= j < before.len() && before[j] == k;
                        assert(out@[j] == k);
                    } else {
                        assert(out@[out@.len() - 1] == k);
                    }
                }
            }
        }
    }
    proof {
        assert forall|k: i64| #[trigger] out@.contains(k) <==> map@.contains_key(k) && lo <= k
            <= hi by {
            if out@.contains(k) {
                let i = choose|i: int| 0 <= i < all.len() && *(#[trigger] all[i]) == k;
                assert(all.unref()[i] == k);
                assert(all.unref().to_set().contains(k));
            }
            if map@.contains_key(k) && lo <= k <= hi {
                assert(all.unref().to_set().contains(k));
                assert(all.unref().contains(k));
                let i = choose|i: int| 0 <= i < all.unref().len() && all.unref()[i] == k;
                assert(*all[i] == k);
            }
        }
    }
    out
}

} // verus!
