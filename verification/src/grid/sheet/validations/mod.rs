//! The validation rules of a sheet.

pub mod validation;
pub mod validation_rules;

use crate::grid::sheet::validations::validation::Validation;
use crate::selection::Selection;
use vstd::prelude::*;

verus! {

/// The validations of a sheet, oldest first; no id twice.
#[derive(Debug, PartialEq, Eq)]
pub struct Validations {
    pub validations: Vec<Validation>,
}

/// `i` is the place of the first validation with the given id.
pub open spec fn is_first_validation(list: Seq<Validation>, id: u128, i: int) -> bool {
    &&& 0 <= i < list.len()
    &&& list[i].id == id
    &&& forall|j: int| 0 <= j < i ==> (#[trigger] list[j]).id != id
}

/// No validation has the given id.
pub open spec fn no_validation(list: Seq<Validation>, id: u128) -> bool {
    forall|j: int| 0 <= j < list.len() ==> (#[trigger] list[j]).id != id
}

/// `i` is the place of the first validation for the given selection.
pub open spec fn is_first_for(list: Seq<Validation>, selection: Selection, i: int) -> bool {
    &&& 0 <= i < list.len()
    &&& list[i].selection.alike(selection)
    &&& forall|j: int| 0 <= j < i ==> !(#[trigger] list[j]).selection.alike(selection)
}

/// The validation with the given id, if there is one.
pub open spec fn validation_at(list: Seq<Validation>, id: u128) -> Option<Validation> {
    if exists|i: int| 0 <= i < list.len() && (#[trigger] list[i]).id == id {
        Some(list[choose|i: int| 0 <= i < list.len() && (#[trigger] list[i]).id == id])
    } else {
        None
    }
}

/// Both are absent, or both are there and alike.
pub open spec fn validations_alike(a: Option<Validation>, b: Option<Validation>) -> bool {
    match (a, b) {
        (Some(x), Some(y)) => x.alike(y),
        (None, None) => true,
        _ => false,
    }
}

/// In a list without repeated ids, the validation with an id is the one
/// stored with it.
pub proof fn lemma_validation_at_unique(list: Seq<Validation>, i: int)
    requires
        0 <= i < list.len(),
        forall|a: int, b: int| 0 <= a < b < list.len() ==> (#[trigger] list[a]).id != (#[trigger] list[b]).id,
    ensures
        validation_at(list, list[i].id) == Some(list[i]),
{
    let id = list[i].id;
    let k = choose|k: int| 0 <= k < list.len() && (#[trigger] list[k]).id == id;
    if k < i {
        assert(list[k].id != list[i].id);
    }
    if k > i {
        assert(list[i].id != list[k].id);
    }
}

/// The ids of a list are all different.
pub open spec fn ids_differ(list: Seq<Validation>) -> bool {
    forall|a: int, b: int| 0 <= a < b < list.len() ==> (#[trigger] list[a]).id != (#[trigger] list[b]).id
}

/// Replacing the validation at place `i` by one with the same id changes
/// what is found under that id, and nothing else.
pub proof fn lemma_validation_at_update(list: Seq<Validation>, i: int, v: Validation, id: u128)
    requires
        0 <= i < list.len(),
        ids_differ(list),
        v.id == list[i].id,
    ensures
        ids_differ(list.update(i, v)),
        validation_at(list.update(i, v), id) == if id == v.id {
            Some(v)
        } else {
            validation_at(list, id)
        },
{
    let after = list.update(i, v);
    assert forall|a: int, b: int| 0 <= a < b < after.len() implies (#[trigger] after[a]).id != (
    #[trigger] after[b]).id by {
        assert(after[a].id == list[a].id && after[b].id == list[b].id);
    }
    if id == v.id {
        lemma_validation_at_unique(after, i);
    } else {
        if exists|k: int| 0 <= k < list.len() && (#[trigger] list[k]).id == id {
            let k = choose|k: int| 0 <= k < list.len() && (#[trigger] list[k]).id == id;
            assert(after[k] == list[k]);
            lemma_validation_at_unique(after, k);
            lemma_validation_at_unique(list, k);
        } else {
            if exists|k: int| 0 <= k < after.len() && (#[trigger] after[k]).id == id {
                let k = choose|k: int| 0 <= k < after.len() && (#[trigger] after[k]).id == id;
                assert(list[k].id == id);
            }
        }
    }
}

/// Appending a validation with a new id changes what is found under that
/// id, and nothing else.
pub proof fn lemma_validation_at_push(list: Seq<Validation>, v: Validation, id: u128)
    requires
        ids_differ(list),
        forall|k: int| 0 <= k < list.len() ==> (#[trigger] list[k]).id != v.id,
    ensures
        ids_differ(list.push(v)),
        validation_at(list.push(v), id) == if id == v.id {
            Some(v)
        } else {
            validation_at(list, id)
        },
{
    let after = list.push(v);
    assert forall|a: int, b: int| 0 <= a < b < after.len() implies (#[trigger] after[a]).id != (
    #[trigger] after[b]).id by {
        assert(after[a] == list[a]);
        if b < list.len() {
            assert(after[b] == list[b]);
        }
    }
    if id == v.id {
        lemma_validation_at_unique(after, list.len() as int);
    } else {
        if exists|k: int| 0 <= k < list.len() && (#[trigger] list[k]).id == id {
            let k = choose|k: int| 0 <= k < list.len() && (#[trigger] list[k]).id == id;
            assert(after[k] == list[k]);
            lemma_validation_at_unique(after, k);
            lemma_validation_at_unique(list, k);
        } else {
            if exists|k: int| 0 <= k < after.len() && (#[trigger] after[k]).id == id {
                let k = choose|k: int| 0 <= k < after.len() && (#[trigger] after[k]).id == id;
                assert(k < list.len());
                assert(list[k].id == id);
            }
        }
    }
}

/// Taking the validation at place `i` out leaves nothing under its id, and
/// everything else as it was.
pub proof fn lemma_validation_at_remove(list: Seq<Validation>, i: int, id: u128)
    requires
        0 <= i < list.len(),
        ids_differ(list),
    ensures
        ids_differ(list.remove(i)),
        validation_at(list.remove(i), id) == if id == list[i].id {
            None
        } else {
            validation_at(list, id)
        },
{
    let after = list.remove(i);
    assert forall|k: int| 0 <= k < after.len() implies #[trigger] after[k] == list[if k < i {
        k
    } else {
        k + 1
    }] by {}
    assert forall|a: int, b: int| 0 <= a < b < after.len() implies (#[trigger] after[a]).id != (
    #[trigger] after[b]).id by {
        let a0 = if a < i {
            a
        } else {
            a + 1
        };
        let b0 = if b < i {
            b
        } else {
            b + 1
        };
        assert(list[a0].id != list[b0].id);
    }
    if id == list[i].id {
        if exists|k: int| 0 <= k < after.len() && (#[trigger] after[k]).id == id {
            let k = choose|k: int| 0 <= k < after.len() && (#[trigger] after[k]).id == id;
            let k0 = if k < i {
                k
            } else {
                k + 1
            };
            if k0 < i {
                assert(list[k0].id != list[i].id);
            } else {
                assert(list[i].id != list[k0].id);
            }
        }
    } else {
        if exists|k: int| 0 <= k < list.len() && (#[trigger] list[k]).id == id {
            let k = choose|k: int| 0 <= k < list.len() && (#[trigger] list[k]).id == id;
            let k2 = if k < i {
                k
            } else {
                k - 1
            };
            assert(after[k2] == list[k]);
            lemma_validation_at_unique(after, k2);
            lemma_validation_at_unique(list, k);
        } else {
            if exists|k: int| 0 <= k < after.len() && (#[trigger] after[k]).id == id {
                let k = choose|k: int| 0 <= k < after.len() && (#[trigger] after[k]).id == id;
                let k0 = if k < i {
                    k
                } else {
                    k + 1
                };
                assert(list[k0].id == id);
            }
        }
    }
}

/// Two lists without repeated ids that hold alike validations, place by
/// place, hold alike validations under every id.
pub proof fn lemma_validation_at_alike(a: Seq<Validation>, b: Seq<Validation>, id: u128)
    requires
        a.len() == b.len(),
        forall|i: int| 0 <= i < a.len() ==> (#[trigger] a[i]).alike(b[i]),
        forall|i: int, j: int| 0 <= i < j < b.len() ==> (#[trigger] b[i]).id != (#[trigger] b[j]).id,
    ensures
        validations_alike(validation_at(a, id), validation_at(b, id)),
{
    assert forall|i: int, j: int| 0 <= i < j < a.len() implies (#[trigger] a[i]).id != (
    #[trigger] a[j]).id by {
        assert(a[i].alike(b[i]) && a[j].alike(b[j]));
        assert(b[i].id != b[j].id);
    }
    if exists|i: int| 0 <= i < a.len() && (#[trigger] a[i]).id == id {
        let i = choose|i: int| 0 <= i < a.len() && (#[trigger] a[i]).id == id;
        assert(a[i].alike(b[i]));
        lemma_validation_at_unique(a, i);
        lemma_validation_at_unique(b, i);
    } else {
        if exists|i: int| 0 <= i < b.len() && (#[trigger] b[i]).id == id {
            let i = choose|i: int| 0 <= i < b.len() && (#[trigger] b[i]).id == id;
            assert(a[i].alike(b[i]));
            assert(a[i].id == id);
        }
    }
}

impl Validations {
    /// The validation with the given id, if there is one.
    pub open spec fn by_id(self, id: u128) -> Option<Validation> {
        validation_at(self.validations@, id)
    }

    /// No two validations share an id.
    pub open spec fn wf(self) -> bool {
        forall|i: int, j: int|
            0 <= i < j < self.validations@.len() ==> (#[trigger] self.validations@[i]).id != (
            #[trigger] self.validations@[j]).id
    }

    /// Whether no two validations share an id.
    pub fn is_wf(&self) -> (b: bool)
        ensures
            b == self.wf(),
    {
        let n = self.validations.len();
        let mut j: usize = 0;
        while j < n
            invariant
                j <= n,
                n == self.validations@.len(),
                forall|a: int, b: int|
                    0 <= a < b < j ==> (#[trigger] self.validations@[a]).id != (
                    #[trigger] self.validations@[b]).id,
            decreases n - j,
        {
            let mut i: usize = 0;
            while i < j
                invariant
                    i <= j < n,
                    n == self.validations@.len(),
                    forall|a: int|
                        0 <= a < i ==> (#[trigger] self.validations@[a]).id
                            != self.validations@[j as int].id,
                decreases j - i,
            {
                if self.validations[i].id == self.validations[j].id {
                    return false;
                }
                i += 1;
            }
            j += 1;
        }
        true
    }

    pub fn new() -> (r: Validations)
        ensures
            r.validations@.len() == 0,
            r.wf(),
    {
        Validations { validations: Vec::new() }
    }

    fn find(&self, id: u128) -> (r: Option<usize>)
        ensures
            match r {
                Some(i) => is_first_validation(self.validations@, id, i as int),
                None => no_validation(self.validations@, id),
            },
    {
        let mut i: usize = 0;
        while i < self.validations.len()
            invariant
                i <= self.validations@.len(),
                forall|j: int| 0 <= j < i ==> (#[trigger] self.validations@[j]).id != id,
            decreases self.validations.len() - i,
        {
            if self.validations[i].id == id {
                return Some(i);
            }
            i += 1;
        }
        None
    }

    /// Gets a validation based on its id.
    pub fn validation(&self, validation_id: u128) -> (r: Option<&Validation>)
        ensures
            match r {
                Some(v) => exists|i: int| #[trigger]
                    is_first_validation(self.validations@, validation_id, i) && *v
                        == self.validations@[i],
                None => no_validation(self.validations@, validation_id),
            },
    {
        match self.find(validation_id) {
            Some(i) => Some(&self.validations[i]),
            None => None,
        }
    }

    /// Gets the first validation made for exactly the given selection.
    pub fn validation_selection(&self, selection: Selection) -> (r: Option<&Validation>)
        ensures
            match r {
                Some(v) => exists|i: int| #[trigger]
                    is_first_for(self.validations@, selection, i) && *v == self.validations@[i],
                None => forall|j: int|
                    0 <= j < self.validations@.len() ==> !(
                    #[trigger] self.validations@[j]).selection.alike(selection),
            },
    {
        let mut i: usize = 0;
        while i < self.validations.len()
            invariant
                i <= self.validations@.len(),
                forall|j: int|
                    0 <= j < i ==> !(#[trigger] self.validations@[j]).selection.alike(selection),
            decreases self.validations.len() - i,
        {
            if self.validations[i].selection.same(&selection) {
                assert(is_first_for(self.validations@, selection, i as int));
                return Some(&self.validations[i]);
            }
            i += 1;
        }
        None
    }

    /// The validations, unless there are none.
    pub fn validations(&self) -> (r: Option<&Vec<Validation>>)
        ensures
            self.validations@.len() == 0 ==> r is None,
            self.validations@.len() > 0 ==> r == Some(&self.validations),
    {
        if self.validations.len() == 0 {
            None
        } else {
            Some(&self.validations)
        }
    }

    /// Puts `validation` in the place of the validation with the same id, or
    /// behind the others where there is none. Returns the validation that it
    /// replaced.
    pub fn set(&mut self, validation: Validation) -> (previous: Option<Validation>)
        requires
            old(self).wf(),
        ensures
            final(self).wf(),
            previous == old(self).by_id(validation.id),
            forall|id: u128|
                #[trigger] final(self).by_id(id) == if id == validation.id {
                    Some(validation)
                } else {
                    old(self).by_id(id)
                },
            match previous {
                Some(p) => exists|i: int| #[trigger]
                    is_first_validation(old(self).validations@, validation.id, i) && p == old(self).validations@[i] && final(self).validations@ == old(self).validations@.update(
                        i,
                        validation,
                    ),
                None => no_validation(old(self).validations@, validation.id) && final(self).validations@ == old(self).validations@.push(validation),
            },
    {
        let ghost before = self.validations@;
        match self.find(validation.id) {
            Some(i) => {
                let ghost given = validation;
                let mut swapped = validation;
                std::mem::swap(&mut swapped, &mut self.validations[i]);
                proof {
                    assert(self.validations@ == before.update(i as int, given));
                    lemma_validation_at_unique(before, i as int);
                    assert forall|id: u128|
                        #[trigger] self.by_id(id) == if id == given.id {
                            Some(given)
                        } else {
                            old(self).by_id(id)
                        } by {
                        lemma_validation_at_update(before, i as int, given, id);
                    }
                    lemma_validation_at_update(before, i as int, given, given.id);
                }
                Some(swapped)
            },
            None => {
                let ghost given = validation;
                self.validations.push(validation);
                proof {
                    assert forall|id: u128|
                        #[trigger] self.by_id(id) == if id == given.id {
                            Some(given)
                        } else {
                            old(self).by_id(id)
                        } by {
                        lemma_validation_at_push(before, given, id);
                    }
                    lemma_validation_at_push(before, given, given.id);
                }
                None
            },
        }
    }

    /// Takes the validation with the given id out. Returns it.
    pub fn remove(&mut self, validation_id: u128) -> (previous: Option<Validation>)
        requires
            old(self).wf(),
        ensures
            final(self).wf(),
            previous == old(self).by_id(validation_id),
            forall|id: u128|
                #[trigger] final(self).by_id(id) == if id == validation_id {
                    None
                } else {
                    old(self).by_id(id)
                },
            match previous {
                Some(p) => exists|i: int| #[trigger]
                    is_first_validation(old(self).validations@, validation_id, i) && p == old(self).validations@[i] && final(self).validations@ == old(self).validations@.remove(
                        i,
                    ),
                None => no_validation(old(self).validations@, validation_id) && final(self).validations@ == old(self).validations@,
            },
            no_validation(final(self).validations@, validation_id),
    {
        match self.find(validation_id) {
            Some(i) => {
                let removed = self.validations.remove(i);
                proof {
                    let before = old(self).validations@;
                    let after = self.validations@;
                    lemma_validation_at_unique(before, i as int);
                    assert forall|id: u128|
                        #[trigger] self.by_id(id) == if id == validation_id {
                            None
                        } else {
                            old(self).by_id(id)
                        } by {
                        lemma_validation_at_remove(before, i as int, id);
                    }
                    assert forall|k: int| 0 <= k < after.len() implies #[trigger] after[k]
                        == before[if k < i {
                        k
                    } else {
                        k + 1
                    }] by {}
                    assert forall|a: int, b: int| 0 <= a < b < after.len() implies (
                    #[trigger] after[a]).id != (#[trigger] after[b]).id by {
                        let a0 = if a < i {
                            a
                        } else {
                            a + 1
                        };
                        let b0 = if b < i {
                            b
                        } else {
                            b + 1
                        };
                        assert(before[a0].id != before[b0].id);
                    }
                    assert forall|k: int| 0 <= k < after.len() implies (#[trigger] after[k]).id
                        != validation_id by {
                        if k < i {
                        } else {
                            assert(before[i as int].id != before[k + 1].id);
                        }
                    }
                }
                Some(removed)
            },
            None => None,
        }
    }
}

} // verus!
