//! The formatting attributes of a cell.

use crate::grid::track::TrackValue;
use vstd::prelude::*;

verus! {

#[derive(Clone, Copy, Debug, PartialEq, Eq, Hash, Structural)]
pub enum CellAlign {
    Left,
    Center,
    Right,
}

#[derive(Clone, Copy, Debug, PartialEq, Eq, Hash, Structural)]
pub enum CellWrap {
    Overflow,
    Wrap,
    Clip,
}

#[derive(Clone, Copy, Debug, PartialEq, Eq, Hash, Structural)]
pub enum NumericFormatKind {
    Number,
    Currency,
    Percentage,
    Exponential,
}

/// How a number is shown: its kind, and the currency symbol where it has one.
#[derive(Debug, PartialEq, Eq)]
pub struct NumericFormat {
    pub kind: NumericFormatKind,
    pub symbol: Option<String>,
}

/// The size at which an embedded cell is drawn, width and height as text.
#[derive(Debug, PartialEq, Eq)]
pub struct RenderSize {
    pub w: String,
    pub h: String,
}

/// The model of an optional text.
pub open spec fn opt_text(s: Option<String>) -> Option<Seq<char>> {
    match s {
        Some(t) => Some(t@),
        None => None,
    }
}

impl TrackValue for bool {
    type Model = bool;

    open spec fn model(&self) -> bool {
        *self
    }

    fn same(&self, other: &Self) -> (b: bool) {
        *self == *other
    }

    fn duplicate(&self) -> (r: Self) {
        *self
    }
}

impl TrackValue for i16 {
    type Model = i16;

    open spec fn model(&self) -> i16 {
        *self
    }

    fn same(&self, other: &Self) -> (b: bool) {
        *self == *other
    }

    fn duplicate(&self) -> (r: Self) {
        *self
    }
}

impl TrackValue for CellAlign {
    type Model = CellAlign;

    open spec fn model(&self) -> CellAlign {
        *self
    }

    fn same(&self, other: &Self) -> (b: bool) {
        *self == *other
    }

    fn duplicate(&self) -> (r: Self) {
        *self
    }
}

impl TrackValue for CellWrap {
    type Model = CellWrap;

    open spec fn model(&self) -> CellWrap {
        *self
    }

    fn same(&self, other: &Self) -> (b: bool) {
        *self == *other
    }

    fn duplicate(&self) -> (r: Self) {
        *self
    }
}

impl TrackValue for String {
    type Model = Seq<char>;

    open spec fn model(&self) -> Seq<char> {
        self@
    }

    fn same(&self, other: &Self) -> (b: bool) {
        *self == *other
    }

    fn duplicate(&self) -> (r: Self) {
        self.clone()
    }
}

impl TrackValue for NumericFormat {
    type Model = (NumericFormatKind, Option<Seq<char>>);

    open spec fn model(&self) -> (NumericFormatKind, Option<Seq<char>>) {
        (self.kind, opt_text(self.symbol))
    }

    fn same(&self, other: &Self) -> (b: bool) {
        self.kind == other.kind && match (&self.symbol, &other.symbol) {
            (Some(a), Some(b)) => *a == *b,
            (None, None) => true,
            _ => false,
        }
    }

    fn duplicate(&self) -> (r: Self) {
        NumericFormat {
            kind: self.kind,
            symbol: match &self.symbol {
                Some(s) => Some(s.clone()),
                None => None,
            },
        }
    }
}

impl TrackValue for RenderSize {
    type Model = (Seq<char>, Seq<char>);

    open spec fn model(&self) -> (Seq<char>, Seq<char>) {
        (self.w@, self.h@)
    }

    fn same(&self, other: &Self) -> (b: bool) {
        self.w == other.w && self.h == other.h
    }

    fn duplicate(&self) -> (r: Self) {
        RenderSize { w: self.w.clone(), h: self.h.clone() }
    }
}

/// One formatting attribute with the value it is given, or `None` to clear
/// it.
#[derive(Debug, PartialEq, Eq)]
pub enum CellFormat {
    Align(Option<CellAlign>),
    Wrap(Option<CellWrap>),
    NumericFormat(Option<NumericFormat>),
    NumericDecimals(Option<i16>),
    NumericCommas(Option<bool>),
    Bold(Option<bool>),
    Italic(Option<bool>),
    TextColor(Option<String>),
    FillColor(Option<String>),
    RenderSize(Option<RenderSize>),
}

/// All the formatting of one cell.
pub ghost struct FormatModel {
    pub align: Option<CellAlign>,
    pub wrap: Option<CellWrap>,
    pub numeric_format: Option<(NumericFormatKind, Option<Seq<char>>)>,
    pub numeric_decimals: Option<i16>,
    pub numeric_commas: Option<bool>,
    pub bold: Option<bool>,
    pub italic: Option<bool>,
    pub text_color: Option<Seq<char>>,
    pub fill_color: Option<Seq<char>>,
    pub render_size: Option<(Seq<char>, Seq<char>)>,
}

impl FormatModel {
    /// No attribute is set.
    pub open spec fn none() -> FormatModel {
        FormatModel {
            align: None,
            wrap: None,
            numeric_format: None,
            numeric_decimals: None,
            numeric_commas: None,
            bold: None,
            italic: None,
            text_color: None,
            fill_color: None,
            render_size: None,
        }
    }

    /// The formatting with one attribute replaced.
    pub open spec fn with(self, change: CellFormat) -> FormatModel {
        match change {
            CellFormat::Align(v) => FormatModel { align: v, ..self },
            CellFormat::Wrap(v) => FormatModel { wrap: v, ..self },
            CellFormat::NumericFormat(v) => FormatModel {
                numeric_format: crate::grid::track::opt_model(v),
                ..self
            },
            CellFormat::NumericDecimals(v) => FormatModel { numeric_decimals: v, ..self },
            CellFormat::NumericCommas(v) => FormatModel { numeric_commas: v, ..self },
            CellFormat::Bold(v) => FormatModel { bold: v, ..self },
            CellFormat::Italic(v) => FormatModel { italic: v, ..self },
            CellFormat::TextColor(v) => FormatModel { text_color: opt_text(v), ..self },
            CellFormat::FillColor(v) => FormatModel { fill_color: opt_text(v), ..self },
            CellFormat::RenderSize(v) => FormatModel {
                render_size: crate::grid::track::opt_model(v),
                ..self
            },
        }
    }

    /// The value that `self` has for the attribute that `change` speaks of
    /// is the one that `change` carries.
    pub open spec fn agrees(self, change: CellFormat) -> bool {
        self.with(change) == self
    }
}

impl CellFormat {
    /// Both changes do the same to any formatting.
    pub open spec fn alike(self, other: CellFormat) -> bool {
        self.same_attribute(other) && forall|m: FormatModel| #[trigger] m.with(self) == m.with(other)
    }

    /// A change that does the same.
    pub fn duplicate(&self) -> (r: CellFormat)
        ensures
            r.alike(*self),
    {
        match self {
            CellFormat::Align(v) => CellFormat::Align(*v),
            CellFormat::Wrap(v) => CellFormat::Wrap(*v),
            CellFormat::NumericFormat(v) => CellFormat::NumericFormat(
                match v {
                    Some(n) => Some(n.duplicate()),
                    None => None,
                },
            ),
            CellFormat::NumericDecimals(v) => CellFormat::NumericDecimals(*v),
            CellFormat::NumericCommas(v) => CellFormat::NumericCommas(*v),
            CellFormat::Bold(v) => CellFormat::Bold(*v),
            CellFormat::Italic(v) => CellFormat::Italic(*v),
            CellFormat::TextColor(v) => CellFormat::TextColor(
                match v {
                    Some(s) => Some(s.clone()),
                    None => None,
                },
            ),
            CellFormat::FillColor(v) => CellFormat::FillColor(
                match v {
                    Some(s) => Some(s.clone()),
                    None => None,
                },
            ),
            CellFormat::RenderSize(v) => CellFormat::RenderSize(
                match v {
                    Some(s) => Some(s.duplicate()),
                    None => None,
                },
            ),
        }
    }

    /// The same attribute, cleared.
    pub fn cleared(&self) -> (r: CellFormat)
        ensures
            r.same_attribute(*self),
            FormatModel::none().agrees(r),
    {
        match self {
            CellFormat::Align(_) => CellFormat::Align(None),
            CellFormat::Wrap(_) => CellFormat::Wrap(None),
            CellFormat::NumericFormat(_) => CellFormat::NumericFormat(None),
            CellFormat::NumericDecimals(_) => CellFormat::NumericDecimals(None),
            CellFormat::NumericCommas(_) => CellFormat::NumericCommas(None),
            CellFormat::Bold(_) => CellFormat::Bold(None),
            CellFormat::Italic(_) => CellFormat::Italic(None),
            CellFormat::TextColor(_) => CellFormat::TextColor(None),
            CellFormat::FillColor(_) => CellFormat::FillColor(None),
            CellFormat::RenderSize(_) => CellFormat::RenderSize(None),
        }
    }

    /// Whether both speak of the same attribute.
    pub open spec fn same_attribute(self, other: CellFormat) -> bool {
        match (self, other) {
            (CellFormat::Align(_), CellFormat::Align(_)) => true,
            (CellFormat::Wrap(_), CellFormat::Wrap(_)) => true,
            (CellFormat::NumericFormat(_), CellFormat::NumericFormat(_)) => true,
            (CellFormat::NumericDecimals(_), CellFormat::NumericDecimals(_)) => true,
            (CellFormat::NumericCommas(_), CellFormat::NumericCommas(_)) => true,
            (CellFormat::Bold(_), CellFormat::Bold(_)) => true,
            (CellFormat::Italic(_), CellFormat::Italic(_)) => true,
            (CellFormat::TextColor(_), CellFormat::TextColor(_)) => true,
            (CellFormat::FillColor(_), CellFormat::FillColor(_)) => true,
            (CellFormat::RenderSize(_), CellFormat::RenderSize(_)) => true,
            _ => false,
        }
    }
}

} // verus!
