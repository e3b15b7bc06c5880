//! The list of sheets of a grid.

use crate::grid::ids::SheetId;
use crate::grid::order_key::{
    fractional_key_between, is_base62_text, is_order_key_text, key_between, opt_view, text_lt,
};
use crate::grid::sheet::Sheet;
use crate::order::{
    insert_sorted, is_sorted, lemma_insert_at, lemma_insert_sorted, lemma_lex_total,
    lemma_lex_trans, lemma_sorted_seq, sorted_seq, str_le, text_le, total_preorder,
};
use crate::values::decimal::{int_text, u128_to_string};
use vstd::prelude::*;
use vstd::string::{StrSliceExecFns, StringExecFns};

verus! {

/// A grid: its sheets, in the order of their order keys.
#[derive(Debug, PartialEq, Eq)]
pub struct Grid {
    pub sheets: Vec<Sheet>,
}

/// The order of sheets: that of their order keys as texts.
pub open spec fn sheet_le() -> spec_fn(Sheet, Sheet) -> bool {
    |a: Sheet, b: Sheet| text_le(a.order@, b.order@)
}

/// The order of sheets is total and transitive.
pub proof fn lemma_sheet_le_total()
    ensures
        total_preorder(sheet_le()),
{
    let le = sheet_le();
    assert forall|a: Sheet, b: Sheet| #[trigger] le(a, b) || le(b, a) by {
        lemma_lex_total(vstd::utf8::encode_utf8(a.order@), vstd::utf8::encode_utf8(b.order@));
    }
    assert forall|a: Sheet, b: Sheet, c: Sheet| #[trigger] le(a, b) && #[trigger] le(b, c) implies le(
        a,
        c,
    ) by {
        lemma_lex_trans(
            vstd::utf8::encode_utf8(a.order@),
            vstd::utf8::encode_utf8(b.order@),
            vstd::utf8::encode_utf8(c.order@),
        );
    }
}

/// `i` is the place of the first sheet with the given id.
pub open spec fn is_first_with_id(sheets: Seq<Sheet>, id: SheetId, i: int) -> bool {
    &&& 0 <= i < sheets.len()
    &&& sheets[i].id == id
    &&& forall|j: int| 0 <= j < i ==> (#[trigger] sheets[j]).id != id
}

/// No sheet has the given id.
pub open spec fn no_sheet_with_id(sheets: Seq<Sheet>, id: SheetId) -> bool {
    forall|j: int| 0 <= j < sheets.len() ==> (#[trigger] sheets[j]).id != id
}

/// `i` is the place of the first sheet with the given name.
pub open spec fn is_first_with_name(sheets: Seq<Sheet>, name: Seq<char>, i: int) -> bool {
    &&& 0 <= i < sheets.len()
    &&& sheets[i].name@ == name
    &&& forall|j: int| 0 <= j < i ==> (#[trigger] sheets[j]).name@ != name
}

/// Some sheet has the given name.
pub open spec fn name_taken(sheets: Seq<Sheet>, name: Seq<char>) -> bool {
    exists|j: int| 0 <= j < sheets.len() && (#[trigger] sheets[j]).name@ == name
}

/// A name with a number in brackets behind it.
pub open spec fn suffixed(name: Seq<char>, index: nat) -> Seq<char> {
    name + " ("@ + int_text(index as int) + ")"@
}

/// The name tried at step `k` of looking for a free name: `base` itself at
/// step zero, thereafter the name tried before with the step's number in
/// brackets behind it.
pub open spec fn candidate_name(base: Seq<char>, k: nat) -> Seq<char>
    decreases k,
{
    if k == 0 {
        base
    } else {
        suffixed(candidate_name(base, (k - 1) as nat), k)
    }
}

/// `name` is the first candidate for `base` that no sheet has yet.
pub open spec fn is_free_name(sheets: Seq<Sheet>, base: Seq<char>, name: Seq<char>) -> bool {
    exists|k: nat|
        {
            &&& #[trigger] candidate_name(base, k) == name
            &&& !name_taken(sheets, name)
            &&& forall|j: nat| j < k ==> name_taken(sheets, #[trigger] candidate_name(base, j))
        }
}

/// The name of the `n`-th sheet made without a name of its own.
pub open spec fn default_name(n: nat) -> Seq<char> {
    "Sheet "@ + int_text(n as int)
}

impl Grid {
    /// Every sheet is well formed.
    pub open spec fn wf(self) -> bool {
        forall|i: int| 0 <= i < self.sheets@.len() ==> (#[trigger] self.sheets@[i]).wf()
    }

    /// Whether every sheet is well formed.
    pub fn is_wf(&self) -> (b: bool)
        ensures
            b == self.wf(),
    {
        let mut i: usize = 0;
        while i < self.sheets.len()
            invariant
                i <= self.sheets@.len(),
                forall|k: int| 0 <= k < i ==> (#[trigger] self.sheets@[k]).wf(),
            decreases self.sheets.len() - i,
        {
            if !self.sheets[i].is_wf() {
                return false;
            }
            i += 1;
        }
        true
    }

    /// Both grids show the same sheets in the same order.
    pub open spec fn same_content(self, other: Grid) -> bool {
        &&& self.sheets@.len() == other.sheets@.len()
        &&& forall|i: int|
            0 <= i < self.sheets@.len() ==> (#[trigger] self.sheets@[i]).same_content(
                other.sheets@[i],
            )
    }

    /// Every number in a cell or an output of the grid prints as itself.
    pub open spec fn numbers_storable(self) -> bool {
        forall|i: int| 0 <= i < self.sheets@.len() ==> (#[trigger] self.sheets@[i]).numbers_storable()
    }

    /// Whether every number in a cell or an output of the grid prints as
    /// itself.
    pub fn is_numbers_storable(&self) -> (b: bool)
        requires
            self.wf(),
        ensures
            b == self.numbers_storable(),
    {
        let mut i: usize = 0;
        while i < self.sheets.len()
            invariant
                i <= self.sheets@.len(),
                self.wf(),
                forall|j: int| 0 <= j < i ==> (#[trigger] self.sheets@[j]).numbers_storable(),
            decreases self.sheets.len() - i,
        {
            assert(self.sheets@[i as int].wf());
            if !self.sheets[i].is_numbers_storable() {
                return false;
            }
            i += 1;
        }
        true
    }

    /// Every sheet can be written to a file and read back as it is.
    pub open spec fn storable(self) -> bool {
        forall|i: int| 0 <= i < self.sheets@.len() ==> (#[trigger] self.sheets@[i]).storable()
    }

    /// The sheets are in the order of their order keys.
    pub open spec fn sorted(self) -> bool {
        is_sorted(self.sheets@, sheet_le())
    }

    /// The sheets are in the order of their order keys, and no two have the
    /// same key.
    pub open spec fn strictly_sorted(self) -> bool {
        forall|i: int, j: int|
            0 <= i < j < self.sheets@.len() ==> text_le(
                (#[trigger] self.sheets@[i]).order@,
                (#[trigger] self.sheets@[j]).order@,
            ) && self.sheets@[i].order@ != self.sheets@[j].order@
    }

    /// No two sheets have the same name.
    pub open spec fn names_unique(self) -> bool {
        forall|i: int, j: int|
            0 <= i < j < self.sheets@.len() ==> (#[trigger] self.sheets@[i]).name@ != (
            #[trigger] self.sheets@[j]).name@
    }

    /// No two sheets have the same id.
    pub open spec fn ids_unique(self) -> bool {
        forall|i: int, j: int|
            0 <= i < j < self.sheets@.len() ==> (#[trigger] self.sheets@[i]).id != (
            #[trigger] self.sheets@[j]).id
    }

    /// The order key of the last sheet, if there is a sheet.
    pub open spec fn last_order(self) -> Option<Seq<char>> {
        if self.sheets@.len() == 0 {
            None
        } else {
            Some(self.sheets@.last().order@)
        }
    }

    /// A key behind the last sheet can be made: the last sheet's key is
    /// written in digits and ASCII letters, and the generator yields a key.
    pub open spec fn has_end_order(self) -> bool {
        &&& self.last_order() matches Some(k) ==> is_base62_text(k)
        &&& fractional_key_between(self.last_order(), None) is Ok
    }

    /// The grid is a new one: it has one sheet, named `Sheet 1`, with the
    /// first order key and a random UUID for its id, and the sheet is empty.
    pub open spec fn is_new(self) -> bool {
        &&& self.sheets@.len() == 1
        &&& crate::grid::ids::is_random_uuid(self.sheets@[0].id.id)
        &&& self.sheets@[0].name@ == default_name(1)
        &&& self.sheets@[0].order@ == "a0"@
        &&& self.sheets@[0].color is None
        &&& self.sheets@[0].columns@ == Map::<i64, crate::grid::column::Column>::empty()
        &&& self.sheets@[0].code_runs@.len() == 0
        &&& self.sheets@[0].validations.validations@.len() == 0
        &&& self.sheets@[0].offsets.column_widths@ == Map::<i64, u64>::empty()
        &&& self.sheets@[0].offsets.row_heights@ == Map::<i64, u64>::empty()
        &&& self.sheets@[0].borders@.len() == 0
        &&& self.sheets@[0].data_bounds == crate::grid::bounds::GridBounds::Empty
        &&& self.sheets@[0].format_bounds == crate::grid::bounds::GridBounds::Empty
    }

    /// A grid of one empty sheet, named `Sheet 1`, with the first order key.
    pub fn new() -> (grid: Grid)
        ensures
            grid.is_new(),
            grid.wf(),
            grid.sheets@.len() == 1,
            grid.sheets@[0].name@ == default_name(1),
            grid.sheets@[0].order@ == "a0"@,
            grid.sheets@[0].columns@ == Map::<i64, crate::grid::column::Column>::empty(),
            grid.sheets@[0].code_runs@.len() == 0,
            grid.sorted(),
            grid.names_unique(),
            grid.ids_unique(),
    {
        let mut grid = Grid { sheets: Vec::new() };
        let order = match key_between(&None, &None) {
            Ok(k) => k,
            Err(_) => String::from_str("a0"),
        };
        let mut name = String::from_str("Sheet ");
        name.append(u128_to_string(1).as_str());
        grid.sheets.push(Sheet::new(SheetId::new(), name, order));
        grid
    }

    pub fn sheets(&self) -> (r: &Vec<Sheet>)
        ensures
            r@ == self.sheets@,
    {
        &self.sheets
    }

    pub fn sheets_mut(&mut self) -> (r: &mut Vec<Sheet>)
        ensures
            *r == old(self).sheets,
            final(self).sheets == *final(r),
    {
        &mut self.sheets
    }

    /// The id of the first sheet.
    pub fn first_sheet_id(&self) -> (id: SheetId)
        requires
            self.sheets@.len() > 0,
        ensures
            id == self.sheets@[0].id,
    {
        self.sheets[0].id
    }

    /// The first sheet.
    pub fn first_sheet(&self) -> (sheet: &Sheet)
        requires
            self.sheets@.len() > 0,
        ensures
            *sheet == self.sheets@[0],
    {
        &self.sheets[0]
    }

    /// The first sheet, to be changed.
    pub fn first_sheet_mut(&mut self) -> (sheet: &mut Sheet)
        requires
            old(self).sheets@.len() > 0,
        ensures
            *sheet == old(self).sheets@[0],
            final(self).sheets@ == old(self).sheets@.update(0, *final(sheet)),
    {
        &mut self.sheets[0]
    }

    /// The ids of the sheets, in the order of the sheets.
    pub fn sheet_ids(&self) -> (ids: Vec<SheetId>)
        ensures
            ids@.len() == self.sheets@.len(),
            forall|i: int| 0 <= i < ids@.len() ==> #[trigger] ids@[i] == self.sheets@[i].id,
    {
        let mut ids: Vec<SheetId> = Vec::new();
        let mut i: usize = 0;
        while i < self.sheets.len()
            invariant
                i <= self.sheets@.len(),
                ids@.len() == i,
                forall|j: int| 0 <= j < i ==> #[trigger] ids@[j] == self.sheets@[j].id,
            decreases self.sheets.len() - i,
        {
            ids.push(self.sheets[i].id);
            i += 1;
        }
        ids
    }

    /// The place of the first sheet with the given id.
    pub fn sheet_id_to_index(&self, id: SheetId) -> (r: Option<usize>)
        ensures
            match r {
                Some(i) => is_first_with_id(self.sheets@, id, i as int),
                None => no_sheet_with_id(self.sheets@, id),
            },
    {
        let mut i: usize = 0;
        while i < self.sheets.len()
            invariant
                i <= self.sheets@.len(),
                forall|j: int| 0 <= j < i ==> (#[trigger] self.sheets@[j]).id != id,
            decreases self.sheets.len() - i,
        {
            if self.sheets[i].id == id {
                return Some(i);
            }
            i += 1;
        }
        None
    }

    /// The id of the sheet at the given place.
    pub fn sheet_index_to_id(&self, index: usize) -> (r: Option<SheetId>)
        ensures
            index < self.sheets@.len() ==> r == Some(self.sheets@[index as int].id),
            index >= self.sheets@.len() ==> r is None,
    {
        if index < self.sheets.len() {
            Some(self.sheets[index].id)
        } else {
            None
        }
    }

    /// Whether an id is given and some sheet has it.
    pub fn sheet_has_id(&self, sheet_id: Option<SheetId>) -> (b: bool)
        ensures
            b == (sheet_id matches Some(id) && !no_sheet_with_id(self.sheets@, id)),
    {
        match sheet_id {
            Some(id) => self.sheet_id_to_index(id).is_some(),
            None => false,
        }
    }

    /// The first sheet with the given id.
    pub fn try_sheet(&self, sheet_id: SheetId) -> (r: Option<&Sheet>)
        ensures
            match r {
                Some(sheet) => exists|i: int| #[trigger]
                    is_first_with_id(self.sheets@, sheet_id, i) && *sheet == self.sheets@[i],
                None => no_sheet_with_id(self.sheets@, sheet_id),
            },
    {
        match self.sheet_id_to_index(sheet_id) {
            Some(i) => Some(&self.sheets[i]),
            None => None,
        }
    }

    /// The first sheet with the given id, to be changed.
    pub fn try_sheet_mut(&mut self, sheet_id: SheetId) -> (r: Option<&mut Sheet>)
        ensures
            match r {
                Some(sheet) => exists|i: int| #[trigger]
                    is_first_with_id(old(self).sheets@, sheet_id, i) && *sheet == old(self).sheets@[i] && final(self).sheets@ == old(self).sheets@.update(
                        i,
                        *final(sheet),
                    ),
                None => no_sheet_with_id(old(self).sheets@, sheet_id) && final(self).sheets@
                    == old(self).sheets@,
            },
    {
        match self.sheet_id_to_index(sheet_id) {
            Some(i) => Some(&mut self.sheets[i]),
            None => None,
        }
    }

    /// The first sheet with the given id. There must be one.
    pub fn sheet_from_id(&self, sheet_id: SheetId) -> (sheet: &Sheet)
        requires
            !no_sheet_with_id(self.sheets@, sheet_id),
        ensures
            exists|i: int| #[trigger]
                is_first_with_id(self.sheets@, sheet_id, i) && *sheet == self.sheets@[i],
    {
        match self.sheet_id_to_index(sheet_id) {
            Some(i) => &self.sheets[i],
            None => {
                proof {
                    assert(false);
                }
                &self.sheets[0]
            },
        }
    }

    /// The first sheet with the given id, to be changed. There must be one.
    pub fn sheet_mut_from_id(&mut self, sheet_id: SheetId) -> (sheet: &mut Sheet)
        requires
            !no_sheet_with_id(old(self).sheets@, sheet_id),
        ensures
            exists|i: int| #[trigger]
                is_first_with_id(old(self).sheets@, sheet_id, i) && *sheet == old(self).sheets@[i]
                    && final(self).sheets@ == old(self).sheets@.update(i, *final(sheet)),
    {
        match self.sheet_id_to_index(sheet_id) {
            Some(i) => &mut self.sheets[i],
            None => {
                proof {
                    assert(false);
                }
                &mut self.sheets[0]
            },
        }
    }

    /// The place of the first sheet with the given name.
    pub fn sheet_name_to_index(&self, name: &str) -> (r: Option<usize>)
        ensures
            match r {
                Some(i) => is_first_with_name(self.sheets@, name@, i as int),
                None => !name_taken(self.sheets@, name@),
            },
    {
        let mut i: usize = 0;
        while i < self.sheets.len()
            invariant
                i <= self.sheets@.len(),
                forall|j: int| 0 <= j < i ==> (#[trigger] self.sheets@[j]).name@ != name@,
            decreases self.sheets.len() - i,
        {
            if crate::formulas::functions::string::exact(self.sheets[i].name.as_str(), name) {
                return Some(i);
            }
            i += 1;
        }
        None
    }

    /// The first sheet with the given name.
    pub fn try_sheet_from_name(&self, name: String) -> (r: Option<&Sheet>)
        ensures
            match r {
                Some(sheet) => exists|i: int| #[trigger]
                    is_first_with_name(self.sheets@, name@, i) && *sheet == self.sheets@[i],
                None => !name_taken(self.sheets@, name@),
            },
    {
        match self.sheet_name_to_index(name.as_str()) {
            Some(i) => Some(&self.sheets[i]),
            None => None,
        }
    }

    /// The first sheet with the given name, to be changed.
    pub fn try_sheet_mut_from_name(&mut self, name: String) -> (r: Option<&mut Sheet>)
        ensures
            match r {
                Some(sheet) => exists|i: int| #[trigger]
                    is_first_with_name(old(self).sheets@, name@, i) && *sheet == old(self).sheets@[i] && final(self).sheets@ == old(self).sheets@.update(
                        i,
                        *final(sheet),
                    ),
                None => !name_taken(old(self).sheets@, name@) && final(self).sheets@ == old(self).sheets@,
            },
    {
        match self.sheet_name_to_index(name.as_str()) {
            Some(i) => Some(&mut self.sheets[i]),
            None => None,
        }
    }

    /// The first sheet whose id is the one that the text stands for.
    pub fn try_sheet_from_string_id(&self, id: String) -> (r: Option<&Sheet>)
        ensures
            match r {
                Some(sheet) => SheetId::spec_from_str(id@) matches Some(sheet_id) && exists|i: int| #[trigger]
                    is_first_with_id(self.sheets@, sheet_id, i) && *sheet == self.sheets@[i],
                None => SheetId::spec_from_str(id@) matches Some(sheet_id) ==> no_sheet_with_id(
                    self.sheets@,
                    sheet_id,
                ),
            },
    {
        match SheetId::from_str(id.as_str()) {
            Some(sheet_id) => self.try_sheet(sheet_id),
            None => None,
        }
    }

    /// The first sheet whose id is the one that the text stands for, to be
    /// changed.
    pub fn try_sheet_mut_from_string_id(&mut self, id: String) -> (r: Option<&mut Sheet>)
        ensures
            match r {
                Some(sheet) => SheetId::spec_from_str(id@) matches Some(sheet_id) && exists|i: int| #[trigger]
                    is_first_with_id(old(self).sheets@, sheet_id, i) && *sheet == old(self).sheets@[i] && final(self).sheets@ == old(self).sheets@.update(
                        i,
                        *final(sheet),
                    ),
                None => final(self).sheets@ == old(self).sheets@ && (SheetId::spec_from_str(
                    id@,
                ) matches Some(sheet_id) ==> no_sheet_with_id(old(self).sheets@, sheet_id)),
            },
    {
        match SheetId::from_str(id.as_str()) {
            Some(sheet_id) => self.try_sheet_mut(sheet_id),
            None => None,
        }
    }

    /// Puts `sheet` behind the last sheet whose key is at most its own.
    pub(crate) fn insert_in_order(sheets: &mut Vec<Sheet>, sheet: Sheet)
        ensures
            final(sheets)@ == insert_sorted(old(sheets)@, sheet, sheet_le()),
    {
        let mut i: usize = sheets.len();
        while i > 0 && !str_le(sheets[i - 1].order.as_str(), sheet.order.as_str())
            invariant
                i <= sheets@.len(),
                forall|j: int| i <= j < sheets@.len() ==> !sheet_le()(#[trigger] sheets@[j], sheet),
            decreases i,
        {
            i -= 1;
        }
        proof {
            lemma_insert_at(sheets@, sheet, sheet_le(), i as int);
        }
        sheets.insert(i, sheet);
    }

    /// Brings the sheets into the order of their order keys. Sheets with the
    /// same key keep their order.
    pub fn sort_sheets(&mut self)
        ensures
            final(self).sheets@ == sorted_seq(old(self).sheets@, sheet_le()),
            final(self).sorted(),
            final(self).sheets@.to_multiset() == old(self).sheets@.to_multiset(),
            old(self).wf() ==> final(self).wf(),
    {
        let ghost all = self.sheets@;
        let mut rest: Vec<Sheet> = Vec::new();
        std::mem::swap(&mut rest, &mut self.sheets);
        let n = rest.len();
        let mut i: usize = 0;
        assert(all.take(0) == Seq::<Sheet>::empty());
        while i < n
            invariant
                i <= n,
                n == all.len(),
                rest@ == all.skip(i as int),
                self.sheets@ == sorted_seq(all.take(i as int), sheet_le()),
            decreases n - i,
        {
            let sheet = rest.remove(0);
            proof {
                assert(sheet == all[i as int]);
                assert(all.take(i + 1).drop_last() == all.take(i as int));
                assert(all.take(i + 1).last() == all[i as int]);
                assert(rest@ == all.skip(i + 1));
            }
            Grid::insert_in_order(&mut self.sheets, sheet);
            i += 1;
        }
        proof {
            assert(all.take(n as int) == all);
            lemma_sheet_le_total();
            lemma_sorted_seq(all, sheet_le());
            if old(self).wf() {
                assert forall|k: int| 0 <= k < self.sheets@.len() implies (
                #[trigger] self.sheets@[k]).wf() by {
                    assert(self.sheets@.contains(self.sheets@[k]));
                    assert(all.contains(self.sheets@[k]));
                    let j = choose|j: int| 0 <= j < all.len() && all[j] == self.sheets@[k];
                    assert(all[j].wf());
                }
            }
        }
    }

    /// The key for a sheet behind the last sheet. There must be one: see
    /// [`Grid::try_end_order`].
    pub fn end_order(&self) -> (key: String)
        requires
            self.has_end_order(),
        ensures
            fractional_key_between(self.last_order(), None) == Ok::<Seq<char>, Seq<char>>(key@),
            self.last_order() matches Some(k) ==> text_lt(k, key@),
    {
        let last_order = if self.sheets.len() == 0 {
            None
        } else {
            Some(self.sheets[self.sheets.len() - 1].order.clone())
        };
        match key_between(&last_order, &None) {
            Ok(key) => key,
            Err(e) => e,
        }
    }

    /// The key for a sheet behind the last sheet, or `None` where the last
    /// sheet's key is not written in digits and ASCII letters or the
    /// generator yields no key.
    pub fn try_end_order(&self) -> (r: Option<String>)
        ensures
            r is Some <==> self.has_end_order(),
            r matches Some(key) ==> fractional_key_between(self.last_order(), None) == Ok::<
                Seq<char>,
                Seq<char>,
            >(key@) && (self.last_order() matches Some(k) ==> text_lt(k, key@)),
    {
        let last_order = if self.sheets.len() == 0 {
            None
        } else {
            let last = &self.sheets[self.sheets.len() - 1].order;
            if !is_order_key_text(last.as_str()) {
                return None;
            }
            Some(last.clone())
        };
        match key_between(&last_order, &None) {
            Ok(key) => Some(key),
            Err(_) => None,
        }
    }

    /// Find the order key of the sheet before the first sheet with the given
    /// id.
    pub fn previous_sheet_order(&self, sheet_id: SheetId) -> (r: Option<String>)
        ensures
            match r {
                Some(key) => exists|i: int| #[trigger]
                    is_first_with_id(self.sheets@, sheet_id, i) && i > 0 && key == self.sheets@[i
                        - 1].order,
                None => no_sheet_with_id(self.sheets@, sheet_id) || is_first_with_id(
                    self.sheets@,
                    sheet_id,
                    0,
                ),
            },
    {
        match self.sheet_id_to_index(sheet_id) {
            Some(i) => if i > 0 {
                Some(self.sheets[i - 1].order.clone())
            } else {
                None
            },
            None => None,
        }
    }

    /// The sheet behind the first sheet with the given id.
    pub fn next_sheet(&self, sheet_id: SheetId) -> (r: Option<&Sheet>)
        ensures
            match r {
                Some(sheet) => exists|i: int| #[trigger]
                    is_first_with_id(self.sheets@, sheet_id, i) && i + 1 < self.sheets@.len()
                        && *sheet == self.sheets@[i + 1],
                None => no_sheet_with_id(self.sheets@, sheet_id) || is_first_with_id(
                    self.sheets@,
                    sheet_id,
                    self.sheets@.len() - 1,
                ),
            },
    {
        match self.sheet_id_to_index(sheet_id) {
            Some(i) => if i < self.sheets.len() - 1 {
                Some(&self.sheets[i + 1])
            } else {
                None
            },
            None => None,
        }
    }

    /// The first name among `base`, `base (1)`, `base (1) (2)` and so on that
    /// no sheet has yet.
    pub fn free_name(&self, base: String) -> (name: String)
        ensures
            is_free_name(self.sheets@, base@, name@),
    {
        let mut name = base;
        let mut index: u128 = 0;
        loop
            invariant
                candidate_name(base@, index as nat) == name@,
                index <= name@.len(),
                forall|j: nat| j < index ==> name_taken(self.sheets@, #[trigger] candidate_name(base@, j)),
            ensures
                is_free_name(self.sheets@, base@, name@),
            decreases room(longest_name(self.sheets@), name@.len()),
        {
            if self.sheet_name_to_index(name.as_str()).is_none() {
                break ;
            }
            proof {
                lemma_taken_is_short(self.sheets@, name@);
                lemma_candidate_grows(base@, index as nat);
            }
            let len = name.as_str().unicode_len();
            index += 1;
            name.append(" (");
            name.append(u128_to_string(index).as_str());
            name.append(")");
            proof {
                reveal_strlit(" (");
                reveal_strlit(")");
            }
        }
        name
    }

    /// Adds a sheet to the grid and returns its id. Where `sheet` is `None`,
    /// an empty sheet is made, with a random id, the name `Sheet` followed by
    /// the number of sheets there will be, and an order key behind the last
    /// sheet; such a key must exist (see [`Grid::try_add_sheet`]). A name
    /// that another sheet has already is given a number in brackets until it
    /// is free. The sheets are then brought into the order of their keys.
    pub fn add_sheet(&mut self, sheet: Option<Sheet>) -> (id: SheetId)
        requires
            sheet is None ==> old(self).has_end_order(),
        ensures
            exists|i: int| #[trigger]
                added_at(old(self).sheets@, sheet, final(self).sheets@, i) && final(self).sheets@[i].id == id,
            final(self).sorted(),
            final(self).sheets@.len() == old(self).sheets@.len() + 1,
            old(self).wf() && (sheet matches Some(s) ==> s.wf()) ==> final(self).wf(),
            old(self).names_unique() ==> final(self).names_unique(),
            old(self).ids_unique() && no_sheet_with_id(old(self).sheets@, id) ==> final(self).ids_unique(),
            sheet is None && old(self).strictly_sorted() ==> final(self).strictly_sorted()
                && final(self).sheets@.drop_last() == old(self).sheets@ && final(self).sheets@.last().id == id,
    {
        let ghost before = self.sheets@;
        let ghost given = sheet;
        let new_sheet = match sheet {
            Some(s) => {
                let Sheet {
                    id,
                    name,
                    color,
                    order,
                    columns,
                    code_runs,
                    validations,
                    offsets,
                    borders,
                    data_bounds,
                    format_bounds,
                } = s;
                let name = self.free_name(name);
                Sheet {
                    id,
                    name,
                    color,
                    order,
                    columns,
                    code_runs,
                    validations,
                    offsets,
                    borders,
                    data_bounds,
                    format_bounds,
                }
            },
            None => {
                let mut base = String::from_str("Sheet ");
                base.append(u128_to_string(self.sheets.len() as u128 + 1).as_str());
                proof {
                    reveal_strlit("Sheet ");
                }
                let name = self.free_name(base);
                Sheet::new(SheetId::new(), name, self.end_order())
            },
        };
        let id = new_sheet.id;
        let ghost added = new_sheet;
        self.sheets.push(new_sheet);
        self.sort_sheets();
        proof {
            let after = self.sheets@;
            lemma_sheet_le_total();
            lemma_sorted_seq(before.push(added), sheet_le());
            assert(before.push(added)[before.len() as int] == added);
            assert(before.push(added).contains(added));
            assert(after.contains(added));
            let i = choose|i: int| 0 <= i < after.len() && after[i] == added;
            assert(added_at(before, given, after, i));
            assert forall|k: int| 0 <= k < after.len() implies before.contains(#[trigger] after[k])
                || after[k] == added by {
                assert(after.contains(after[k]));
                assert(before.push(added).contains(after[k]));
                let j = choose|j: int|
                    0 <= j < before.push(added).len() && before.push(added)[j] == after[k];
                if j < before.len() {
                    assert(before[j] == after[k]);
                }
            }
            if given is None && old(self).strictly_sorted() {
                let all = before.push(added);
                assert(before.len() > 0 ==> text_lt(before.last().order@, added.order@));
                assert forall|a: int, b: int| 0 <= a < b < all.len() implies text_le(
                    (#[trigger] all[a]).order@,
                    (#[trigger] all[b]).order@,
                ) && all[a].order@ != all[b].order@ by {
                    if b == before.len() {
                        let last = before.last().order@;
                        if a < before.len() - 1 {
                            assert(text_le(before[a].order@, before[before.len() - 1].order@));
                        } else {
                            crate::order::lemma_lex_refl(vstd::utf8::encode_utf8(last));
                        }
                        crate::order::lemma_lex_trans(
                            vstd::utf8::encode_utf8(all[a].order@),
                            vstd::utf8::encode_utf8(last),
                            vstd::utf8::encode_utf8(added.order@),
                        );
                        if all[a].order@ == added.order@ {
                            crate::order::lemma_text_antisym(last, added.order@);
                        }
                    } else {
                        assert(all[a] == before[a] && all[b] == before[b]);
                    }
                }
                assert(crate::order::is_sorted(all, sheet_le()));
                crate::order::lemma_sorted_seq_fixed(all, sheet_le());
                assert(after == all);
                assert(after.drop_last() == before);
            }
            if old(self).names_unique() {
                lemma_unique_after_sort(before, added, after, |s: Sheet| s.name@);
            }
            if old(self).ids_unique() && no_sheet_with_id(before, id) {
                lemma_unique_after_sort(before, added, after, |s: Sheet| s.id);
            }
            if old(self).wf() && (given matches Some(s) ==> s.wf()) {
                assert forall|k: int| 0 <= k < after.len() implies (#[trigger] after[k]).wf() by {
                    if before.contains(after[k]) {
                        let j = choose|j: int| 0 <= j < before.len() && before[j] == after[k];
                        assert(before[j].wf());
                    }
                }
            }
        }
        id
    }

    /// Adds a sheet as [`Grid::add_sheet`] does, unless `sheet` is `None` and
    /// no order key behind the last sheet can be made: the grid then stays as
    /// it is and `None` is returned.
    pub fn try_add_sheet(&mut self, sheet: Option<Sheet>) -> (r: Option<SheetId>)
        ensures
            r is None <==> sheet is None && !old(self).has_end_order(),
            r is None ==> final(self).sheets@ == old(self).sheets@,
            r matches Some(id) ==> final(self).sorted() && exists|i: int| #[trigger]
                added_at(old(self).sheets@, sheet, final(self).sheets@, i) && final(self).sheets@[i].id == id,
    {
        if sheet.is_none() && self.try_end_order().is_none() {
            return None;
        }
        Some(self.add_sheet(sheet))
    }

    /// Takes the first sheet with the given id out of the grid.
    pub fn remove_sheet(&mut self, sheet_id: SheetId) -> (r: Option<Sheet>)
        ensures
            match r {
                Some(sheet) => exists|i: int| #[trigger]
                    is_first_with_id(old(self).sheets@, sheet_id, i) && sheet == old(self).sheets@[i] && final(self).sheets@ == old(self).sheets@.remove(i),
                None => no_sheet_with_id(old(self).sheets@, sheet_id) && final(self).sheets@
                    == old(self).sheets@,
            },
            old(self).wf() ==> final(self).wf(),
            old(self).sorted() ==> final(self).sorted(),
            old(self).strictly_sorted() ==> final(self).strictly_sorted(),
            old(self).names_unique() ==> final(self).names_unique(),
            old(self).ids_unique() ==> final(self).ids_unique(),
    {
        match self.sheet_id_to_index(sheet_id) {
            Some(i) => {
                let sheet = self.sheets.remove(i);
                proof {
                    let before = old(self).sheets@;
                    let after = self.sheets@;
                    assert forall|k: int| 0 <= k < after.len() implies #[trigger] after[k]
                        == before[if k < i {
                        k
                    } else {
                        k + 1
                    }] by {}
                    if old(self).strictly_sorted() {
                        assert forall|a: int, b: int| 0 <= a < b < after.len() implies text_le(
                            (#[trigger] after[a]).order@,
                            (#[trigger] after[b]).order@,
                        ) && after[a].order@ != after[b].order@ by {
                            let a0 = if a < i {
                                a
                            } else {
                                a + 1
                            };
                            let b0 = if b < i {
                                b
                            } else {
                                b + 1
                            };
                            assert(text_le(before[a0].order@, before[b0].order@)
                                && before[a0].order@ != before[b0].order@);
                        }
                    }
                    if old(self).sorted() {
                        assert forall|a: int, b: int| 0 <= a < b < after.len() implies sheet_le()(
                            #[trigger] after[a],
                            #[trigger] after[b],
                        ) by {
                            let a0 = if a < i {
                                a
                            } else {
                                a + 1
                            };
                            let b0 = if b < i {
                                b
                            } else {
                                b + 1
                            };
                            assert(sheet_le()(before[a0], before[b0]));
                        }
                    }
                    if old(self).names_unique() {
                        assert forall|a: int, b: int| 0 <= a < b < after.len() implies (
                        #[trigger] after[a]).name@ != (#[trigger] after[b]).name@ by {
                            let a0 = if a < i {
                                a
                            } else {
                                a + 1
                            };
                            let b0 = if b < i {
                                b
                            } else {
                                b + 1
                            };
                            assert(before[a0].name@ != before[b0].name@);
                        }
                    }
                    if old(self).ids_unique() {
                        assert forall|a: int, b: int| 0 <= a < b < after.len() implies (
                        #[trigger] after[a]).id != (#[trigger] after[b]).id by {
                            let a0 = if a < i {
                                a
                            } else {
                                a + 1
                            };
                            let b0 = if b < i {
                                b
                            } else {
                                b + 1
                            };
                            assert(before[a0].id != before[b0].id);
                        }
                    }
                }
                Some(sheet)
            },
            None => None,
        }
    }

    /// Gives the first sheet with the given id a new order key and brings the
    /// sheets into order again. Nothing happens where no sheet has the id.
    pub fn move_sheet(&mut self, target: SheetId, order: String)
        ensures
            no_sheet_with_id(old(self).sheets@, target) ==> final(self).sheets@ == old(self).sheets@,
            forall|i: int| #[trigger]
                is_first_with_id(old(self).sheets@, target, i) ==> final(self).sheets@
                    == sorted_seq(
                    old(self).sheets@.update(i, Sheet { order, ..old(self).sheets@[i] }),
                    sheet_le(),
                ) && final(self).sorted(),
            old(self).wf() ==> final(self).wf(),
    {
        match self.sheet_id_to_index(target) {
            Some(i) => {
                self.sheets[i].order = order;
                proof {
                    assert(self.sheets@ == old(self).sheets@.update(
                        i as int,
                        Sheet { order, ..old(self).sheets@[i as int] },
                    ));
                    if old(self).wf() {
                        assert forall|k: int| 0 <= k < self.sheets@.len() implies (
                        #[trigger] self.sheets@[k]).wf() by {
                            assert(old(self).sheets@[k].wf());
                        }
                    }
                }
                self.sort_sheets();
            },
            None => {},
        }
    }
}

/// How much longer a name of length `len` can get before it is longer than
/// `longest`.
pub open spec fn room(longest: nat, len: nat) -> nat {
    if len <= longest {
        (longest + 1 - len) as nat
    } else {
        0
    }
}

/// The length of the longest name of a sheet.
pub open spec fn longest_name(sheets: Seq<Sheet>) -> nat
    decreases sheets.len(),
{
    if sheets.len() == 0 {
        0
    } else {
        let rest = longest_name(sheets.drop_last());
        if sheets.last().name@.len() > rest {
            sheets.last().name@.len()
        } else {
            rest
        }
    }
}

proof fn lemma_taken_is_short(sheets: Seq<Sheet>, name: Seq<char>)
    requires
        name_taken(sheets, name),
    ensures
        name.len() <= longest_name(sheets),
    decreases sheets.len(),
{
    let j = choose|j: int| 0 <= j < sheets.len() && (#[trigger] sheets[j]).name@ == name;
    if j < sheets.len() - 1 {
        assert(sheets.drop_last()[j] == sheets[j]);
        lemma_taken_is_short(sheets.drop_last(), name);
    }
}

proof fn lemma_candidate_grows(base: Seq<char>, k: nat)
    ensures
        candidate_name(base, k + 1).len() > candidate_name(base, k).len(),
{
    reveal_strlit(" (");
    reveal_strlit(")");
}

/// `after` is `before` with one sheet added and sorted: the sheet at place
/// `i` is the added one. It is `sheet` under the first free name where a
/// sheet was given, and else an empty sheet under the first free default
/// name, with a key behind the last sheet.
pub open spec fn added_at(before: Seq<Sheet>, sheet: Option<Sheet>, after: Seq<Sheet>, i: int) -> bool {
    &&& 0 <= i < after.len()
    &&& after == sorted_seq(before.push(after[i]), sheet_le())
    &&& match sheet {
        Some(s) => after[i] == (Sheet { name: after[i].name, ..s }) && is_free_name(
            before,
            s.name@,
            after[i].name@,
        ),
        None => {
            &&& is_free_name(before, default_name((before.len() + 1) as nat), after[i].name@)
            &&& fractional_key_between(
                if before.len() == 0 {
                    None
                } else {
                    Some(before.last().order@)
                },
                None,
            ) == Ok::<Seq<char>, Seq<char>>(after[i].order@)
            &&& after[i].color is None
            &&& after[i].columns@ == Map::<i64, crate::grid::column::Column>::empty()
            &&& after[i].code_runs@.len() == 0
            &&& after[i].validations.validations@.len() == 0
            &&& after[i].offsets.column_widths@ == Map::<i64, u64>::empty()
            &&& after[i].offsets.row_heights@ == Map::<i64, u64>::empty()
            &&& after[i].borders@.len() == 0
            &&& after[i].data_bounds == crate::grid::bounds::GridBounds::Empty
            &&& after[i].format_bounds == crate::grid::bounds::GridBounds::Empty
        },
    }
}

/// Sheets that differ pairwise in some respect still do so after one more
/// sheet, which differs from all of them, is added and the list sorted.
proof fn lemma_unique_after_sort<K>(
    before: Seq<Sheet>,
    added: Sheet,
    after: Seq<Sheet>,
    key: spec_fn(Sheet) -> K,
)
    requires
        after == sorted_seq(before.push(added), sheet_le()),
        forall|i: int, j: int|
            0 <= i < j < before.len() ==> key(#[trigger] before[i]) != key(#[trigger] before[j]),
        forall|i: int| 0 <= i < before.len() ==> key(#[trigger] before[i]) != key(added),
    ensures
        forall|i: int, j: int|
            0 <= i < j < after.len() ==> key(#[trigger] after[i]) != key(#[trigger] after[j]),
{
    broadcast use vstd::seq_lib::group_to_multiset_ensures;
    broadcast use vstd::multiset::group_multiset_axioms;

    lemma_sheet_le_total();
    let all = before.push(added);
    lemma_sorted_seq(all, sheet_le());
    assert forall|i: int, j: int| 0 <= i < j < all.len() implies key(#[trigger] all[i]) != key(
        #[trigger] all[j],
    ) by {
        if j < before.len() {
            assert(all[i] == before[i] && all[j] == before[j]);
        } else {
            assert(all[i] == before[i]);
        }
    }
    assert forall|i: int, j: int| 0 <= i < j < after.len() implies key(#[trigger] after[i]) != key(
        #[trigger] after[j],
    ) by {
        if key(after[i]) == key(after[j]) {
            assert(after.contains(after[i]) && after.contains(after[j]));
            assert(all.contains(after[i]) && all.contains(after[j]));
            let a = choose|a: int| 0 <= a < all.len() && all[a] == after[i];
            let b = choose|b: int| 0 <= b < all.len() && all[b] == after[j];
            if a != b {
                if a < b {
                    assert(key(all[a]) != key(all[b]));
                } else {
                    assert(key(all[b]) != key(all[a]));
                }
            }
            assert(after[i] == after[j]);
            let x = after[i];
            vstd::seq_lib::to_multiset_contains(after, x);
            lemma_twice(after, i, j);
            lemma_count_once(all, a, key);
        }
    }
}

/// An element that stands at two places is counted at least twice.
pub proof fn lemma_twice(s: Seq<Sheet>, i: int, j: int)
    requires
        0 <= i < j < s.len(),
        s[i] == s[j],
    ensures
        s.to_multiset().count(s[i]) >= 2,
    decreases s.len(),
{
    broadcast use vstd::seq_lib::group_to_multiset_ensures;
    broadcast use vstd::multiset::group_multiset_axioms;

    let x = s[i];
    let rest = s.remove(j);
    vstd::seq_lib::to_multiset_remove(s, j);
    assert(rest[i] == x);
    assert(rest.contains(x));
    vstd::seq_lib::to_multiset_contains(rest, x);
    assert(rest.to_multiset().count(x) >= 1);
    assert(rest.to_multiset() =~= s.to_multiset().remove(x));
}

/// An element whose key no other element shares is counted once.
proof fn lemma_count_once<K>(s: Seq<Sheet>, a: int, key: spec_fn(Sheet) -> K)
    requires
        0 <= a < s.len(),
        forall|i: int, j: int| 0 <= i < j < s.len() ==> key(#[trigger] s[i]) != key(#[trigger] s[j]),
    ensures
        s.to_multiset().count(s[a]) == 1,
{
    broadcast use vstd::seq_lib::group_to_multiset_ensures;
    broadcast use vstd::multiset::group_multiset_axioms;

    let x = s[a];
    let rest = s.remove(a);
    vstd::seq_lib::to_multiset_remove(s, a);
    assert(rest.to_multiset() =~= s.to_multiset().remove(x));
    if rest.contains(x) {
        let k = choose|k: int| 0 <= k < rest.len() && rest[k] == x;
        let k0 = if k < a {
            k
        } else {
            k + 1
        };
        assert(s[k0] == x);
        if k0 < a {
            assert(key(s[k0]) != key(s[a]));
        } else {
            assert(key(s[a]) != key(s[k0]));
        }
    }
    vstd::seq_lib::to_multiset_contains(rest, x);
    assert(rest.to_multiset().count(x) == 0);
    assert(s.to_multiset().contains(x)) by {
        assert(s.contains(x));
        vstd::seq_lib::to_multiset_contains(s, x);
    }
}

/// A sheet whose id no other sheet of the list shares is counted once.
pub proof fn lemma_ids_count(s: Seq<Sheet>, a: int)
    requires
        0 <= a < s.len(),
        forall|i: int| 0 <= i < s.len() && i != a ==> (#[trigger] s[i]).id != s[a].id,
    ensures
        s.to_multiset().count(s[a]) == 1,
{
    broadcast use vstd::seq_lib::group_to_multiset_ensures;
    broadcast use vstd::multiset::group_multiset_axioms;

    let x = s[a];
    let rest = s.remove(a);
    vstd::seq_lib::to_multiset_remove(s, a);
    assert(rest.to_multiset() =~= s.to_multiset().remove(x));
    if rest.contains(x) {
        let k = choose|k: int| 0 <= k < rest.len() && rest[k] == x;
        let k0 = if k < a {
            k
        } else {
            k + 1
        };
        assert(s[k0] == x);
        assert(s[k0].id != s[a].id);
    }
    vstd::seq_lib::to_multiset_contains(rest, x);
    assert(rest.to_multiset().count(x) == 0);
    assert(s.to_multiset().contains(x)) by {
        assert(s.contains(x));
        vstd::seq_lib::to_multiset_contains(s, x);
    }
}

} // verus!
