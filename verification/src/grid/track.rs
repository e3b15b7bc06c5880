//! Run-length encoded attributes of the rows of a column.

use vstd::prelude::*;

verus! {

/// A value that a track can hold: it has a mathematical model, and two values
/// can be tested for having the same model.
pub trait TrackValue: Sized {
    type Model;

    /// What the value stands for.
    spec fn model(&self) -> Self::Model;

    /// Whether both values stand for the same.
    fn same(&self, other: &Self) -> (b: bool)
        ensures
            b == (self.model() == other.model()),
    ;

    /// Another value that stands for the same.
    fn duplicate(&self) -> (r: Self)
        ensures
            r.model() == self.model(),
    ;
}

/// The model of a value that may be absent.
pub open spec fn opt_model<T: TrackValue>(value: Option<T>) -> Option<T::Model> {
    match value {
        Some(v) => Some(v.model()),
        None => None,
    }
}

/// A value that holds for every row from `start` to `end`, both included.
#[derive(Debug, PartialEq, Eq)]
pub struct Run<T> {
    pub start: i64,
    pub end: i64,
    pub value: T,
}

impl<T> Run<T> {
    /// Whether row `y` lies in the run.
    pub open spec fn covers(self, y: int) -> bool {
        self.start <= y <= self.end
    }
}

/// The runs are non-empty, in increasing order and apart from each other, and
/// two runs that touch hold different values.
pub open spec fn runs_wf<T: TrackValue>(runs: Seq<Run<T>>) -> bool {
    &&& forall|i: int| 0 <= i < runs.len() ==> (#[trigger] runs[i]).start <= runs[i].end
    &&& forall|i: int, j: int|
        0 <= i < j < runs.len() ==> (#[trigger] runs[i]).end < (#[trigger] runs[j]).start
    &&& forall|i: int|
        0 <= i && i + 1 < runs.len() && (#[trigger] runs[i]).end + 1 == runs[i + 1].start
            ==> runs[i].value.model() != runs[i + 1].value.model()
}

/// Runs that are not empty and of which each ends before the next begins
/// are all apart from each other.
pub proof fn lemma_apart<T: TrackValue>(runs: Seq<Run<T>>)
    requires
        forall|k: int| 0 <= k < runs.len() ==> (#[trigger] runs[k]).start <= runs[k].end,
        forall|k: int| 0 <= k && k + 1 < runs.len() ==> (#[trigger] runs[k]).end < runs[k + 1].start,
    ensures
        forall|i: int, j: int|
            0 <= i < j < runs.len() ==> (#[trigger] runs[i]).end < (#[trigger] runs[j]).start,
    decreases runs.len(),
{
    if runs.len() > 1 {
        let head = runs.drop_last();
        assert forall|k: int| 0 <= k < head.len() implies (#[trigger] head[k]).start
            <= head[k].end by {
            assert(head[k] == runs[k]);
        }
        assert forall|k: int| 0 <= k && k + 1 < head.len() implies (#[trigger] head[k]).end < head[k
            + 1].start by {
            assert(head[k] == runs[k] && head[k + 1] == runs[k + 1]);
        }
        lemma_apart(head);
        assert forall|i: int, j: int| 0 <= i < j < runs.len() implies (#[trigger] runs[i]).end < (
        #[trigger] runs[j]).start by {
            let last = runs.len() - 1;
            if j < last {
                assert(head[i] == runs[i] && head[j] == runs[j]);
            } else if i + 1 < last + 1 && i < last - 1 {
                assert(head[i] == runs[i] && head[last - 1] == runs[last - 1]);
                assert(runs[i].end < runs[last - 1].start);
                assert(runs[last - 1].start <= runs[last - 1].end);
                assert(runs[last - 1].end < runs[last - 1 + 1].start);
            } else {
                assert(runs[i].end < runs[i + 1].start);
            }
        }
    }
}

/// What the runs say of row `y`: the model of the last run that covers it.
pub open spec fn model_in<T: TrackValue>(runs: Seq<Run<T>>, y: int) -> Option<T::Model>
    decreases runs.len(),
{
    if runs.len() == 0 {
        None
    } else if runs.last().covers(y) {
        Some(runs.last().value.model())
    } else {
        model_in(runs.drop_last(), y)
    }
}

/// A row that a run covers has that run's model, where runs do not overlap.
pub proof fn lemma_model_in_covering<T: TrackValue>(runs: Seq<Run<T>>, y: int, i: int)
    requires
        runs_wf(runs),
        0 <= i < runs.len(),
        runs[i].covers(y),
    ensures
        model_in(runs, y) == Some(runs[i].value.model()),
    decreases runs.len(),
{
    if i == runs.len() - 1 {
    } else {
        assert(!runs.last().covers(y));
        let rest = runs.drop_last();
        assert(runs_wf(rest)) by {
            assert forall|a: int, b: int| 0 <= a < b < rest.len() implies (#[trigger] rest[a]).end
                < (#[trigger] rest[b]).start by {
                assert(rest[a] == runs[a] && rest[b] == runs[b]);
            }
            assert forall|a: int|
                0 <= a && a + 1 < rest.len() && (#[trigger] rest[a]).end + 1 == rest[a + 1].start
                implies rest[a].value.model() != rest[a + 1].value.model() by {
                assert(rest[a] == runs[a] && rest[a + 1] == runs[a + 1]);
            }
        }
        lemma_model_in_covering(rest, y, i);
    }
}

/// A row that no run covers has no model.
pub proof fn lemma_model_in_none<T: TrackValue>(runs: Seq<Run<T>>, y: int)
    requires
        forall|i: int| 0 <= i < runs.len() ==> !(#[trigger] runs[i]).covers(y),
    ensures
        model_in(runs, y) is None,
    decreases runs.len(),
{
    if runs.len() > 0 {
        let rest = runs.drop_last();
        assert forall|i: int| 0 <= i < rest.len() implies !(#[trigger] rest[i]).covers(y) by {
            assert(rest[i] == runs[i]);
        }
        lemma_model_in_none(rest, y);
    }
}

/// A row with a model is covered by a run with that model.
pub proof fn lemma_model_in_some<T: TrackValue>(runs: Seq<Run<T>>, y: int) -> (i: int)
    requires
        model_in(runs, y) is Some,
    ensures
        0 <= i < runs.len(),
        runs[i].covers(y),
        model_in(runs, y) == Some(runs[i].value.model()),
    decreases runs.len(),
{
    if runs.last().covers(y) {
        runs.len() - 1
    } else {
        let i = lemma_model_in_some(runs.drop_last(), y);
        assert(runs.drop_last()[i] == runs[i]);
        i
    }
}

/// Appends `run` behind runs that all end before it starts, joining it to the
/// last of them where the two touch and hold the same value.
fn push_merged<T: TrackValue>(out: &mut Vec<Run<T>>, run: Run<T>)
    requires
        runs_wf(old(out)@),
        run.start <= run.end,
        forall|k: int| 0 <= k < old(out)@.len() ==> (#[trigger] old(out)@[k]).end < run.start,
    ensures
        runs_wf(final(out)@),
        final(out)@.len() > 0,
        final(out)@.last().end == run.end,
        forall|k: int| 0 <= k < final(out)@.len() ==> (#[trigger] final(out)@[k]).end <= run.end,
        forall|z: int|
            #[trigger] model_in(final(out)@, z) == if run.covers(z) {
                Some(run.value.model())
            } else {
                model_in(old(out)@, z)
            },
{
    let n = out.len();
    let ghost before = out@;
    if n > 0 && out[n - 1].end < i64::MAX && out[n - 1].end + 1 == run.start && out[n - 1].value.same(
        &run.value,
    ) {
        let last = out.pop().unwrap();
        let ghost rest = out@;
        assert(rest == before.drop_last());
        let joined = Run { start: last.start, end: run.end, value: last.value };
        out.push(joined);
        proof {
            let after = out@;
            assert(after.drop_last() == rest);
            assert forall|i: int, j: int| 0 <= i < j < after.len() implies (#[trigger] after[i]).end
                < (#[trigger] after[j]).start by {
                assert(after[i] == before[i]);
                if j < after.len() - 1 {
                    assert(after[j] == before[j]);
                } else {
                    assert(before[i].end < before[n - 1].start);
                }
            }
            assert forall|i: int|
                0 <= i && i + 1 < after.len() && (#[trigger] after[i]).end + 1 == after[i
                    + 1].start implies after[i].value.model() != after[i + 1].value.model() by {
                assert(after[i] == before[i]);
                if i + 1 < after.len() - 1 {
                    assert(after[i + 1] == before[i + 1]);
                } else {
                    assert(before[i].end + 1 == before[i + 1].start);
                }
            }
            assert forall|z: int|
                #[trigger] model_in(after, z) == if run.covers(z) {
                    Some(run.value.model())
                } else {
                    model_in(before, z)
                } by {
                if !run.covers(z) && !before.last().covers(z) {
                    assert(!after.last().covers(z));
                }
            }
        }
    } else {
        out.push(run);
        proof {
            let after = out@;
            assert(after.drop_last() == before);
            assert forall|i: int, j: int| 0 <= i < j < after.len() implies (#[trigger] after[i]).end
                < (#[trigger] after[j]).start by {
                assert(after[i] == before[i]);
                if j < after.len() - 1 {
                    assert(after[j] == before[j]);
                }
            }
            assert forall|i: int|
                0 <= i && i + 1 < after.len() && (#[trigger] after[i]).end + 1 == after[i
                    + 1].start implies after[i].value.model() != after[i + 1].value.model() by {
                assert(after[i] == before[i]);
                if i + 1 < after.len() - 1 {
                    assert(after[i + 1] == before[i + 1]);
                }
            }
        }
    }
}

/// One attribute of the rows of a column, stored as runs of equal values.
#[derive(Debug, PartialEq, Eq)]
pub struct Track<T> {
    runs: Vec<Run<T>>,
}

impl<T: TrackValue> Track<T> {
    /// The runs, first row first.
    pub closed spec fn runs(self) -> Seq<Run<T>> {
        self.runs@
    }

    /// The runs are in order, apart, and merged wherever two touching runs
    /// held the same value.
    pub open spec fn wf(self) -> bool {
        runs_wf(self.runs())
    }

    /// The model of the value in row `y`, where the row has one.
    pub open spec fn model_at(self, y: int) -> Option<T::Model> {
        model_in(self.runs(), y)
    }

    /// A track without values.
    pub fn new() -> (track: Track<T>)
        ensures
            track.wf(),
            track.runs() == Seq::<Run<T>>::empty(),
            forall|y: int| track.model_at(y) is None,
    {
        Track { runs: Vec::new() }
    }

    /// Whether the runs are in order, apart, and merged wherever two
    /// touching runs held the same value.
    pub fn is_wf(&self) -> (b: bool)
        ensures
            b == self.wf(),
    {
        let n = self.runs.len();
        let mut i: usize = 0;
        while i < n
            invariant
                i <= n,
                n == self.runs@.len(),
                forall|k: int| 0 <= k < i ==> (#[trigger] self.runs@[k]).start <= self.runs@[k].end,
                forall|k: int|
                    0 <= k && k + 1 < i ==> (#[trigger] self.runs@[k]).end < self.runs@[k + 1].start,
                forall|k: int|
                    0 <= k && k + 1 < i && (#[trigger] self.runs@[k]).end + 1 == self.runs@[k
                        + 1].start ==> self.runs@[k].value.model() != self.runs@[k
                        + 1].value.model(),
            decreases n - i,
        {
            if self.runs[i].start > self.runs[i].end {
                return false;
            }
            if i > 0 {
                if self.runs[i - 1].end >= self.runs[i].start {
                    proof {
                        assert(!(self.runs@[i - 1].end < self.runs@[i as int].start));
                    }
                    return false;
                }
                if self.runs[i - 1].end as i128 + 1 == self.runs[i].start as i128
                    && self.runs[i - 1].value.same(&self.runs[i].value) {
                    return false;
                }
            }
            i += 1;
        }
        proof {
            lemma_apart(self.runs@);
        }
        true
    }

    /// The runs, first row first.
    pub fn as_runs(&self) -> (runs: &Vec<Run<T>>)
        ensures
            runs@ == self.runs(),
    {
        &self.runs
    }

    /// Whether no row has a value.
    pub fn is_empty(&self) -> (b: bool)
        ensures
            b == (self.runs().len() == 0),
    {
        self.runs.len() == 0
    }

    /// The value in row `y`, where the row has one.
    pub fn get(&self, y: i64) -> (r: Option<&T>)
        requires
            self.wf(),
        ensures
            r matches Some(v) ==> self.model_at(y as int) == Some(v.model()),
            r is None ==> self.model_at(y as int) is None,
    {
        let mut i: usize = 0;
        while i < self.runs.len()
            invariant
                i <= self.runs@.len(),
                self.wf(),
                forall|k: int| 0 <= k < i ==> !(#[trigger] self.runs@[k]).covers(y as int),
            decreases self.runs.len() - i,
        {
            if self.runs[i].start <= y && y <= self.runs[i].end {
                proof {
                    lemma_model_in_covering(self.runs@, y as int, i as int);
                }
                return Some(&self.runs[i].value);
            }
            i += 1;
        }
        proof {
            lemma_model_in_none(self.runs@, y as int);
        }
        None
    }

    /// A track that says the same of every row.
    pub fn duplicate(&self) -> (r: Track<T>)
        requires
            self.wf(),
        ensures
            r.wf(),
            forall|z: int| #[trigger] r.model_at(z) == self.model_at(z),
    {
        let mut out: Track<T> = Track::new();
        let mut i: usize = 0;
        assert(self.runs@.take(0) == Seq::<Run<T>>::empty());
        while i < self.runs.len()
            invariant
                i <= self.runs@.len(),
                self.wf(),
                out.wf(),
                i > 0 ==> forall|k: int|
                    0 <= k < out.runs().len() ==> (#[trigger] out.runs()[k]).end
                        <= self.runs@[i - 1].end,
                i == 0 ==> out.runs().len() == 0,
                forall|z: int| #[trigger] out.model_at(z) == model_in(self.runs@.take(i as int), z),
            decreases self.runs.len() - i,
        {
            proof {
                assert(self.runs@.take(i + 1).drop_last() == self.runs@.take(i as int));
                assert(self.runs@.take(i + 1).last() == self.runs@[i as int]);
                if i > 0 {
                    assert(self.runs@[i - 1].end < self.runs@[i as int].start);
                }
            }
            let ghost before = out;
            out.append(self.runs[i].start, self.runs[i].end, self.runs[i].value.duplicate());
            proof {
                assert forall|z: int|
                    #[trigger] out.model_at(z) == model_in(self.runs@.take(i + 1), z) by {
                    assert(before.model_at(z) == model_in(self.runs@.take(i as int), z));
                }
            }
            i += 1;
        }
        assert(self.runs@.take(self.runs@.len() as int) == self.runs@);
        out
    }

    /// The last row that has a value.
    pub fn last_end(&self) -> (r: Option<i64>)
        requires
            self.wf(),
        ensures
            match r {
                Some(end) => self.runs().len() > 0 && end == self.runs().last().end && forall|
                    k: int,
                | 0 <= k < self.runs().len() ==> (#[trigger] self.runs()[k]).end <= end,
                None => self.runs().len() == 0,
            },
    {
        let n = self.runs.len();
        if n == 0 {
            None
        } else {
            proof {
                assert forall|k: int| 0 <= k < n implies (#[trigger] self.runs@[k]).end
                    <= self.runs@[n - 1].end by {
                    if k < n - 1 {
                        assert(self.runs@[k].end < self.runs@[n - 1].start);
                    }
                }
            }
            Some(self.runs[n - 1].end)
        }
    }

    /// Gives the rows from `start` to `end` the value `value`. The rows must
    /// lie behind every row that has a value already.
    pub fn append(&mut self, start: i64, end: i64, value: T)
        requires
            old(self).wf(),
            start <= end,
            forall|k: int| 0 <= k < old(self).runs().len() ==> (#[trigger] old(self).runs()[k]).end < start,
        ensures
            final(self).wf(),
            final(self).runs().len() > 0,
            final(self).runs().last().end == end,
            forall|k: int|
                0 <= k < final(self).runs().len() ==> (#[trigger] final(self).runs()[k]).end <= end,
            forall|z: int|
                #[trigger] final(self).model_at(z) == if start <= z <= end {
                    Some(value.model())
                } else {
                    old(self).model_at(z)
                },
    {
        push_merged(&mut self.runs, Run { start, end, value });
    }

    /// The first and the last row that have a value.
    pub fn span(&self) -> (r: Option<(i64, i64)>)
        requires
            self.wf(),
        ensures
            r is None <==> forall|z: int| self.model_at(z) is None,
            r matches Some((lo, hi)) ==> self.model_at(lo as int) is Some && self.model_at(
                hi as int,
            ) is Some && forall|z: int| #[trigger] self.model_at(z) is Some ==> lo <= z <= hi,
    {
        let n = self.runs.len();
        if n == 0 {
            None
        } else {
            let lo = self.runs[0].start;
            let hi = self.runs[n - 1].end;
            proof {
                lemma_model_in_covering(self.runs@, lo as int, 0);
                lemma_model_in_covering(self.runs@, hi as int, n - 1);
                assert forall|z: int| #[trigger] self.model_at(z) is Some implies lo <= z <= hi by {
                    let i = lemma_model_in_some(self.runs@, z);
                    if 0 < i {
                        assert(self.runs@[0].end < self.runs@[i].start);
                    }
                    if i < n - 1 {
                        assert(self.runs@[i].end < self.runs@[n - 1].start);
                    }
                }
            }
            Some((lo, hi))
        }
    }

    /// Gives row `y` the value `value`, or none where `value` is `None`.
    /// Returns a value with the model that the row had before.
    pub fn set(&mut self, y: i64, value: Option<T>) -> (previous: Option<T>)
        requires
            old(self).wf(),
        ensures
            final(self).wf(),
            forall|z: int|
                z != y ==> #[trigger] final(self).model_at(z) == old(self).model_at(z),
            final(self).model_at(y as int) == opt_model(value),
            old(self).model_at(y as int) == opt_model(previous),
    {
        let previous = match self.get(y) {
            Some(v) => Some(v.duplicate()),
            None => None,
        };
        let ghost before = self.runs@;
        let ghost vm: Option<T::Model> = opt_model(value);
        let mut value = value;
        let mut out: Vec<Run<T>> = Vec::new();
        let mut placed = false;
        let n = self.runs.len();
        let mut i: usize = 0;
        while i < n
            invariant
                i <= n,
                n == before.len(),
                self.runs@ == before,
                runs_wf(before),
                runs_wf(out@),
                !placed ==> opt_model(value) == vm,
                forall|k: int|
                    0 <= k < out@.len() && i < n ==> (#[trigger] out@[k]).end < before[i as int].start,
                !placed ==> forall|k: int| 0 <= k < out@.len() ==> (#[trigger] out@[k]).end < y,
                !placed ==> forall|j: int| 0 <= j < i ==> (#[trigger] before[j]).end < y,
                placed && i < n ==> y < before[i as int].start,
                forall|z: int|
                    #[trigger] model_in(out@, z) == if z == y {
                        if placed {
                            vm
                        } else {
                            None
                        }
                    } else {
                        model_in(before.take(i as int), z)
                    },
            decreases n - i,
        {
            let ghost out_before = out@;
            let ghost r = before[i as int];
            proof {
                assert(before.take(i + 1).drop_last() == before.take(i as int));
                assert(before.take(i + 1).last() == r);
                if i + 1 < n {
                    assert(before[i as int].end < before[i + 1].start);
                }
            }
            let start = self.runs[i].start;
            let end = self.runs[i].end;
            if !placed && start > y {
                match value.take() {
                    Some(v) => {
                        push_merged(&mut out, Run { start: y, end: y, value: v });
                    },
                    None => {},
                }
                placed = true;
                push_merged(&mut out, Run { start, end, value: self.runs[i].value.duplicate() });
            } else if !placed && y <= end {
                if start < y {
                    push_merged(
                        &mut out,
                        Run { start, end: y - 1, value: self.runs[i].value.duplicate() },
                    );
                }
                match value.take() {
                    Some(v) => {
                        push_merged(&mut out, Run { start: y, end: y, value: v });
                    },
                    None => {},
                }
                placed = true;
                if y < end {
                    push_merged(
                        &mut out,
                        Run { start: y + 1, end, value: self.runs[i].value.duplicate() },
                    );
                }
            } else {
                push_merged(&mut out, Run { start, end, value: self.runs[i].value.duplicate() });
            }
            i += 1;
        }
        if !placed {
            match value.take() {
                Some(v) => {
                    push_merged(&mut out, Run { start: y, end: y, value: v });
                },
                None => {},
            }
        }
        assert(before.take(n as int) == before);
        self.runs = out;
        previous
    }
}

} // verus!
