//! Values written out as a formula would spell them.

use crate::text::{quote, quoted_text};
use crate::values::array::{lemma_flat_index_in_range, Array};
use crate::values::CellValue;
use vstd::prelude::*;
use vstd::string::StringExecFns;

verus! {

/// The texts one after the other, with `sep` between each two.
pub open spec fn joined(parts: Seq<Seq<char>>, sep: Seq<char>) -> Seq<char>
    decreases parts.len(),
{
    if parts.len() == 0 {
        Seq::empty()
    } else if parts.len() == 1 {
        parts[0]
    } else {
        joined(parts.drop_last(), sep) + sep + parts.last()
    }
}

/// Joining one part more: the separator comes before every part but the
/// first.
pub proof fn lemma_joined_next(parts: Seq<Seq<char>>, sep: Seq<char>, i: int)
    requires
        0 <= i < parts.len(),
    ensures
        joined(parts.take(i + 1), sep) == if i == 0 {
            parts[0]
        } else {
            joined(parts.take(i), sep) + sep + parts[i]
        },
{
    assert(parts.take(i + 1).drop_last() == parts.take(i));
    assert(parts.take(i + 1).last() == parts[i]);
}

impl CellValue {
    /// The value as a formula would spell it: a text in quotes, anything else
    /// as it is shown.
    pub open spec fn spec_repr(self) -> Seq<char> {
        match self {
            CellValue::Text(s) => quoted_text(s@),
            CellValue::Html(s) => quoted_text(s@),
            CellValue::Code(c) => quoted_text(c.code@),
            CellValue::Instant(s) => quoted_text(s@),
            CellValue::Duration(s) => quoted_text(s@),
            v => v.display_text(),
        }
    }

    /// The value as a formula would spell it.
    pub fn repr(&self) -> (r: String)
        ensures
            r@ == self.spec_repr(),
    {
        match self {
            CellValue::Text(s) => quote(s.as_str()),
            CellValue::Html(s) => quote(s.as_str()),
            CellValue::Code(c) => quote(c.code.as_str()),
            CellValue::Instant(s) => quote(s.as_str()),
            CellValue::Duration(s) => quote(s.as_str()),
            v => v.to_display(),
        }
    }
}

impl Array {
    /// The texts that the cells show, row by row.
    pub open spec fn shown(self) -> Seq<Seq<char>> {
        Seq::new(self.cells().len(), |i: int| self.cells()[i].display_text())
    }

    /// The spellings of the cells of row `y`.
    pub open spec fn row_reprs(self, y: int) -> Seq<Seq<char>> {
        Seq::new(self.spec_size().w as nat, |x: int| self.cell(x, y).spec_repr())
    }

    /// The spellings of the rows.
    pub open spec fn rows_reprs(self) -> Seq<Seq<char>> {
        Seq::new(self.spec_size().h as nat, |y: int| joined(self.row_reprs(y), ", "@))
    }

    /// The array as a formula would spell it: in braces, the rows parted by
    /// semicolons and the cells of a row by commas.
    pub open spec fn spec_repr(self) -> Seq<char> {
        "{"@ + joined(self.rows_reprs(), "; "@) + "}"@
    }

    /// The texts that the cells show, row by row, parted by commas.
    pub fn to_display(&self) -> (r: String)
        ensures
            r@ == joined(self.shown(), ", "@),
    {
        let n = self.cell_count();
        let mut out = String::new();
        let mut i: usize = 0;
        while i < n
            invariant
                i <= n,
                n == self.cells().len(),
                out@ == joined(self.shown().take(i as int), ", "@),
            decreases n - i,
        {
            proof {
                lemma_joined_next(self.shown(), ", "@, i as int);
            }
            if i > 0 {
                out.append(", ");
            }
            let text = self.cell_at(i).to_display();
            out.append(text.as_str());
            i += 1;
        }
        assert(self.shown().take(n as int) == self.shown());
        out
    }

    /// The array as a formula would spell it.
    pub fn repr(&self) -> (r: String)
        requires
            self.wf(),
        ensures
            r@ == self.spec_repr(),
    {
        let w = self.width();
        let h = self.height();
        let mut out = String::from_str("{");
        let mut y: u32 = 0;
        while y < h
            invariant
                self.wf(),
                y <= h,
                w == self.spec_size().w,
                h == self.spec_size().h,
                out@ == "{"@ + joined(self.rows_reprs().take(y as int), "; "@),
            decreases h - y,
        {
            proof {
                lemma_joined_next(self.rows_reprs(), "; "@, y as int);
            }
            if y > 0 {
                out.append("; ");
            }
            let ghost before = out@;
            let mut x: u32 = 0;
            while x < w
                invariant
                    self.wf(),
                    x <= w,
                    y < h,
                    w == self.spec_size().w,
                    h == self.spec_size().h,
                    out@ == before + joined(self.row_reprs(y as int).take(x as int), ", "@),
                decreases w - x,
            {
                proof {
                    lemma_joined_next(self.row_reprs(y as int), ", "@, x as int);
                    lemma_flat_index_in_range(self.spec_size(), x as int, y as int);
                }
                if x > 0 {
                    out.append(", ");
                }
                match self.get(x, y) {
                    Ok(v) => {
                        let text = v.repr();
                        out.append(text.as_str());
                    },
                    Err(_) => {},
                }
                x += 1;
            }
            assert(self.row_reprs(y as int).take(w as int) == self.row_reprs(y as int));
            y += 1;
        }
        assert(self.rows_reprs().take(h as int) == self.rows_reprs());
        out.append("}");
        out
    }
}

} // verus!
