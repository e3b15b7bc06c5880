//! The transactions of each document that are not yet part of a checkpoint.

use crate::controller::operations::operation::Operation;
use crate::controller::transaction::TransactionServer;
use vstd::prelude::*;

verus! {

/// The queue of one document: the last sequence number given out, and the
/// transactions that wait for the next checkpoint, in the order of their
/// sequence numbers.
#[derive(Debug, PartialEq, Eq)]
pub struct RoomQueue {
    pub file_id: u128,
    pub sequence_num: u64,
    pub pending: Vec<TransactionServer>,
}

/// The queues of all documents; no document twice.
#[derive(Debug, PartialEq, Eq)]
pub struct TransactionQueue {
    pub rooms: Vec<RoomQueue>,
}

/// Why the queue could not do what was asked.
#[derive(Clone, Copy, Debug, PartialEq, Eq, Hash, Structural)]
pub enum QueueError {
    /// No transactions were ever queued for the document.
    UnknownFile(u128),
    /// No sequence number is left to give out.
    SequenceExhausted(u128),
}

impl RoomQueue {
    /// The waiting transactions are for this document.
    pub open spec fn wf(self) -> bool {
        forall|i: int|
            0 <= i < self.pending@.len() ==> (#[trigger] self.pending@[i]).file_id == self.file_id
    }

    /// The sequence numbers of the waiting transactions increase by one from
    /// one to the next, and the last of them has the last sequence number
    /// given out.
    pub open spec fn in_order(self) -> bool {
        forall|i: int|
            0 <= i < self.pending@.len() ==> (#[trigger] self.pending@[i]).sequence_num
                == self.sequence_num - (self.pending@.len() - 1 - i)
    }
}

/// `i` is the place of the queue of the document.
pub open spec fn is_room(rooms: Seq<RoomQueue>, file_id: u128, i: int) -> bool {
    0 <= i < rooms.len() && rooms[i].file_id == file_id
}

/// No queue is for the document.
pub open spec fn no_room(rooms: Seq<RoomQueue>, file_id: u128) -> bool {
    forall|i: int| 0 <= i < rooms.len() ==> (#[trigger] rooms[i]).file_id != file_id
}

impl TransactionQueue {
    /// No two queues are for one document, and each queue is well formed.
    pub open spec fn wf(self) -> bool {
        &&& forall|i: int, j: int|
            0 <= i < j < self.rooms@.len() ==> (#[trigger] self.rooms@[i]).file_id != (
            #[trigger] self.rooms@[j]).file_id
        &&& forall|i: int| 0 <= i < self.rooms@.len() ==> (#[trigger] self.rooms@[i]).wf()
    }

    /// In every queue the sequence numbers of the waiting transactions
    /// increase by one from one to the next, up to the last one given out.
    pub open spec fn in_order(self) -> bool {
        forall|i: int| 0 <= i < self.rooms@.len() ==> (#[trigger] self.rooms@[i]).in_order()
    }

    /// Whether no two queues are for one document and every waiting
    /// transaction is for the document of its queue.
    pub fn is_wf(&self) -> (b: bool)
        ensures
            b == self.wf(),
    {
        let n = self.rooms.len();
        let mut j: usize = 0;
        while j < n
            invariant
                j <= n,
                n == self.rooms@.len(),
                forall|a: int, b: int|
                    0 <= a < b < j ==> (#[trigger] self.rooms@[a]).file_id != (
                    #[trigger] self.rooms@[b]).file_id,
                forall|a: int| 0 <= a < j ==> (#[trigger] self.rooms@[a]).wf(),
            decreases n - j,
        {
            let mut k: usize = 0;
            while k < j
                invariant
                    k <= j < n,
                    n == self.rooms@.len(),
                    forall|a: int|
                        0 <= a < k ==> (#[trigger] self.rooms@[a]).file_id
                            != self.rooms@[j as int].file_id,
                decreases j - k,
            {
                if self.rooms[k].file_id == self.rooms[j].file_id {
                    return false;
                }
                k += 1;
            }
            let room = &self.rooms[j];
            let mut t: usize = 0;
            while t < room.pending.len()
                invariant
                    t <= room.pending@.len(),
                    j < n,
                    n == self.rooms@.len(),
                    *room == self.rooms@[j as int],
                    forall|a: int|
                        0 <= a < t ==> (#[trigger] room.pending@[a]).file_id == room.file_id,
                decreases room.pending.len() - t,
            {
                if room.pending[t].file_id != room.file_id {
                    return false;
                }
                t += 1;
            }
            j += 1;
        }
        true
    }

    pub fn new() -> (r: TransactionQueue)
        ensures
            r.wf(),
            r.in_order(),
            r.rooms@.len() == 0,
    {
        TransactionQueue { rooms: Vec::new() }
    }

    fn find(&self, file_id: u128) -> (r: Option<usize>)
        ensures
            match r {
                Some(i) => is_room(self.rooms@, file_id, i as int),
                None => no_room(self.rooms@, file_id),
            },
    {
        let mut i: usize = 0;
        while i < self.rooms.len()
            invariant
                i <= self.rooms@.len(),
                forall|j: int| 0 <= j < i ==> (#[trigger] self.rooms@[j]).file_id != file_id,
            decreases self.rooms.len() - i,
        {
            if self.rooms[i].file_id == file_id {
                return Some(i);
            }
            i += 1;
        }
        None
    }

    /// Gives a transaction the next sequence number of its document and
    /// queues it behind the others. A document that has no queue yet gets one
    /// that counts on from `room_sequence_num`. Returns the sequence number
    /// given.
    pub fn push_pending(
        &mut self,
        id: u128,
        file_id: u128,
        operations: Vec<Operation>,
        room_sequence_num: u64,
    ) -> (r: Result<u64, QueueError>)
        requires
            old(self).wf(),
        ensures
            final(self).wf(),
            old(self).in_order() ==> final(self).in_order(),
            match r {
                Ok(sequence_num) => {
                    &&& sequence_num == last_given(old(self).rooms@, file_id, room_sequence_num) + 1
                    &&& exists|i: int|
                        {
                            &&& #[trigger] is_room(final(self).rooms@, file_id, i)
                            &&& final(self).rooms@[i].sequence_num == sequence_num
                            &&& final(self).rooms@[i].pending@ == waiting(
                                old(self).rooms@,
                                file_id,
                            ).push(TransactionServer { id, file_id, sequence_num, operations })
                        }
                    &&& forall|other: u128|
                        other != file_id ==> #[trigger] waiting(final(self).rooms@, other)
                            == waiting(old(self).rooms@, other) && last_given(
                            final(self).rooms@,
                            other,
                            0,
                        ) == last_given(old(self).rooms@, other, 0)
                },
                Err(e) => e == QueueError::SequenceExhausted(file_id) && last_given(
                    old(self).rooms@,
                    file_id,
                    room_sequence_num,
                ) == u64::MAX && final(self).rooms@ == old(self).rooms@,
            },
    {
        let ghost before = self.rooms@;
        match self.find(file_id) {
            Some(i) => {
                proof {
                    lemma_room_unique(before, file_id, i as int);
                    assert(before[i as int].wf());
                }
                if self.rooms[i].sequence_num == u64::MAX {
                    return Err(QueueError::SequenceExhausted(file_id));
                }
                let sequence_num = self.rooms[i].sequence_num + 1;
                self.rooms[i].sequence_num = sequence_num;
                self.rooms[i].pending.push(
                    TransactionServer { id, file_id, sequence_num, operations },
                );
                proof {
                    let after = self.rooms@;
                    assert forall|a: int, b: int| 0 <= a < b < after.len() implies (
                    #[trigger] after[a]).file_id != (#[trigger] after[b]).file_id by {
                        assert(after[a].file_id == before[a].file_id && after[b].file_id
                            == before[b].file_id);
                    }
                    assert forall|k: int| 0 <= k < after.len() implies (#[trigger] after[k]).wf() by {
                        if k == i {
                            let room = after[k];
                            assert forall|x: int| 0 <= x < room.pending@.len() implies (
                            #[trigger] room.pending@[x]).file_id == room.file_id by {
                                if x < before[k].pending@.len() {
                                    assert(room.pending@[x] == before[k].pending@[x]);
                                }
                            }
                        } else {
                            assert(after[k] == before[k]);
                        }
                    }
                    if old(self).in_order() {
                        assert forall|k: int| 0 <= k < after.len() implies (
                        #[trigger] after[k]).in_order() by {
                            assert(before[k].in_order());
                            if k == i {
                                let room = after[k];
                                assert forall|x: int| 0 <= x < room.pending@.len() implies (
                                #[trigger] room.pending@[x]).sequence_num == room.sequence_num - (
                                room.pending@.len() - 1 - x) by {
                                    if x < before[k].pending@.len() {
                                        assert(room.pending@[x] == before[k].pending@[x]);
                                    }
                                }
                            } else {
                                assert(after[k] == before[k]);
                            }
                        }
                    }
                    assert(is_room(after, file_id, i as int));
                    assert forall|other: u128| other != file_id implies #[trigger] waiting(
                        after,
                        other,
                    ) == waiting(before, other) && last_given(after, other, 0) == last_given(
                        before,
                        other,
                        0,
                    ) by {
                        lemma_other_rooms(before, after, i as int, other);
                    }
                }
                Ok(sequence_num)
            },
            None => {
                if room_sequence_num == u64::MAX {
                    return Err(QueueError::SequenceExhausted(file_id));
                }
                let sequence_num = room_sequence_num + 1;
                let mut pending: Vec<TransactionServer> = Vec::new();
                pending.push(TransactionServer { id, file_id, sequence_num, operations });
                self.rooms.push(RoomQueue { file_id, sequence_num, pending });
                proof {
                    let after = self.rooms@;
                    let n = before.len() as int;
                    assert forall|a: int, b: int| 0 <= a < b < after.len() implies (
                    #[trigger] after[a]).file_id != (#[trigger] after[b]).file_id by {
                        assert(after[a] == before[a]);
                        if b < n {
                            assert(after[b] == before[b]);
                        }
                    }
                    assert forall|k: int| 0 <= k < after.len() implies (#[trigger] after[k]).wf() by {
                        if k < n {
                            assert(after[k] == before[k]);
                        }
                    }
                    if old(self).in_order() {
                        assert forall|k: int| 0 <= k < after.len() implies (
                        #[trigger] after[k]).in_order() by {
                            if k < n {
                                assert(after[k] == before[k]);
                                assert(before[k].in_order());
                            }
                        }
                    }
                    assert(is_room(after, file_id, n));
                    assert(waiting(before, file_id) == Seq::<TransactionServer>::empty());
                    assert(after[n].pending@ =~= waiting(before, file_id).push(
                        TransactionServer { id, file_id, sequence_num, operations },
                    ));
                    assert forall|other: u128| other != file_id implies #[trigger] waiting(
                        after,
                        other,
                    ) == waiting(before, other) && last_given(after, other, 0) == last_given(
                        before,
                        other,
                        0,
                    ) by {
                        lemma_other_rooms_push(before, after[n], other);
                    }
                }
                Ok(sequence_num)
            },
        }
    }

    /// The transactions of a document that wait for the next checkpoint.
    pub fn get_pending(&self, file_id: u128) -> (r: Result<&Vec<TransactionServer>, QueueError>)
        requires
            self.wf(),
        ensures
            match r {
                Ok(pending) => !no_room(self.rooms@, file_id) && pending@ == waiting(
                    self.rooms@,
                    file_id,
                ),
                Err(e) => e == QueueError::UnknownFile(file_id) && no_room(self.rooms@, file_id),
            },
    {
        match self.find(file_id) {
            Some(i) => {
                proof {
                    lemma_room_unique(self.rooms@, file_id, i as int);
                }
                Ok(&self.rooms[i].pending)
            },
            None => Err(QueueError::UnknownFile(file_id)),
        }
    }

    /// The last sequence number given out for a document.
    pub fn get_sequence_num(&self, file_id: u128) -> (r: Result<u64, QueueError>)
        requires
            self.wf(),
        ensures
            match r {
                Ok(n) => !no_room(self.rooms@, file_id) && n == last_given(self.rooms@, file_id, 0),
                Err(e) => e == QueueError::UnknownFile(file_id) && no_room(self.rooms@, file_id),
            },
    {
        match self.find(file_id) {
            Some(i) => {
                proof {
                    lemma_room_unique(self.rooms@, file_id, i as int);
                }
                Ok(self.rooms[i].sequence_num)
            },
            None => Err(QueueError::UnknownFile(file_id)),
        }
    }

    /// Takes the waiting transactions of a document out of the queue and
    /// hands them over, for a checkpoint to be made of them. The sequence
    /// numbers go on from where they were.
    pub fn take_pending(&mut self, file_id: u128) -> (taken: Vec<TransactionServer>)
        requires
            old(self).wf(),
        ensures
            final(self).wf(),
            taken@ == waiting(old(self).rooms@, file_id),
            no_room(old(self).rooms@, file_id) ==> final(self).rooms@ == old(self).rooms@,
            waiting(old(self).rooms@, file_id).len() == 0 ==> final(self).rooms@ == old(self).rooms@,
            waiting(final(self).rooms@, file_id).len() == 0,
            last_given(final(self).rooms@, file_id, 0) == last_given(old(self).rooms@, file_id, 0),
            others_kept(old(self).rooms@, final(self).rooms@, file_id),
            !no_room(old(self).rooms@, file_id) ==> completed(
                old(self).rooms@,
                file_id,
                final(self).rooms@,
                taken@.len() as int,
            ),
            old(self).in_order() ==> final(self).in_order() && in_sequence(taken@) && (taken@.len()
                > 0 ==> taken@.last().sequence_num == last_given(old(self).rooms@, file_id, 0)),
            forall|i: int| 0 <= i < taken@.len() ==> (#[trigger] taken@[i]).file_id == file_id,
    {
        let ghost before = self.rooms@;
        match self.find(file_id) {
            Some(i) => {
                proof {
                    lemma_room_unique(before, file_id, i as int);
                    assert(before[i as int].wf());
                }
                if self.rooms[i].pending.len() == 0 {
                    let none: Vec<TransactionServer> = Vec::new();
                    proof {
                        assert(none@ =~= waiting(before, file_id));
                        assert(completed(before, file_id, before, 0));
                    }
                    return none;
                }
                let mut taken: Vec<TransactionServer> = Vec::new();
                std::mem::swap(&mut taken, &mut self.rooms[i].pending);
                proof {
                    let after = self.rooms@;
                    assert(after.len() == before.len());
                    assert(after[i as int].sequence_num == before[i as int].sequence_num);
                    assert(after[i as int].file_id == before[i as int].file_id);
                    assert(after[i as int].pending@.len() == 0);
                    assert forall|a: int, b: int| 0 <= a < b < after.len() implies (
                    #[trigger] after[a]).file_id != (#[trigger] after[b]).file_id by {
                        assert(after[a].file_id == before[a].file_id && after[b].file_id
                            == before[b].file_id);
                    }
                    assert forall|k: int| 0 <= k < after.len() implies (#[trigger] after[k]).wf() by {
                        if k != i {
                            assert(after[k] == before[k]);
                        }
                    }
                    assert(is_room(after, file_id, i as int));
                    lemma_room_unique(after, file_id, i as int);
                    assert forall|other: u128| other != file_id implies #[trigger] waiting(
                        after,
                        other,
                    ) == waiting(before, other) && last_given(after, other, 0) == last_given(
                        before,
                        other,
                        0,
                    ) by {
                        lemma_other_rooms(before, after, i as int, other);
                    }
                    assert(completed(before, file_id, after, taken@.len() as int));
                    if old(self).in_order() {
                        assert(before[i as int].in_order());
                        assert forall|x: int| 0 <= x && x + 1 < taken@.len() implies (
                        #[trigger] taken@[x]).sequence_num + 1 == taken@[x + 1].sequence_num by {
                            assert(before[i as int].pending@[x].sequence_num
                                == before[i as int].sequence_num - (taken@.len() - 1 - x));
                            assert(before[i as int].pending@[x + 1].sequence_num
                                == before[i as int].sequence_num - (taken@.len() - 1 - (x + 1)));
                        }
                        assert forall|k: int| 0 <= k < after.len() implies (
                        #[trigger] after[k]).in_order() by {
                            if k != i {
                                assert(after[k] == before[k]);
                                assert(before[k].in_order());
                            }
                        }
                        if taken@.len() > 0 {
                            let m = taken@.len() - 1;
                            assert(before[i as int].pending@[m].sequence_num
                                == before[i as int].sequence_num - (taken@.len() - 1 - m));
                        }
                    }
                }
                taken
            },
            None => Vec::new(),
        }
    }

    /// Puts transactions that were taken out back at the head of the queue
    /// of their document, before those that have come since. A document
    /// that has no queue yet gets one that counts on from the greatest of
    /// their sequence numbers.
    pub fn restore_pending(&mut self, file_id: u128, taken: Vec<TransactionServer>)
        requires
            old(self).wf(),
            forall|i: int| 0 <= i < taken@.len() ==> (#[trigger] taken@[i]).file_id == file_id,
        ensures
            final(self).wf(),
            waiting(final(self).rooms@, file_id) == taken@ + waiting(old(self).rooms@, file_id),
            !no_room(old(self).rooms@, file_id) ==> last_given(final(self).rooms@, file_id, 0)
                == last_given(old(self).rooms@, file_id, 0),
            no_room(old(self).rooms@, file_id) && taken@.len() > 0 ==> greatest_number(
                taken@,
                last_given(final(self).rooms@, file_id, 0),
            ),
            no_room(old(self).rooms@, file_id) && taken@.len() == 0 ==> last_given(
                final(self).rooms@,
                file_id,
                0,
            ) == 0,
            others_kept(old(self).rooms@, final(self).rooms@, file_id),
    {
        let ghost before = self.rooms@;
        match self.find(file_id) {
            Some(i) => {
                proof {
                    lemma_room_unique(before, file_id, i as int);
                }
                let mut all = taken;
                let mut since: Vec<TransactionServer> = Vec::new();
                std::mem::swap(&mut since, &mut self.rooms[i].pending);
                all.append(&mut since);
                self.rooms[i].pending = all;
                proof {
                    let after = self.rooms@;
                    assert(after.len() == before.len());
                    assert(after[i as int].file_id == before[i as int].file_id);
                    assert forall|a: int, b: int| 0 <= a < b < after.len() implies (
                    #[trigger] after[a]).file_id != (#[trigger] after[b]).file_id by {
                        assert(after[a].file_id == before[a].file_id && after[b].file_id
                            == before[b].file_id);
                    }
                    assert(is_room(after, file_id, i as int));
                    lemma_room_unique(after, file_id, i as int);
                    assert(after[i as int].sequence_num == before[i as int].sequence_num);
                    assert forall|other: u128| other != file_id implies #[trigger] waiting(
                        after,
                        other,
                    ) == waiting(before, other) && last_given(after, other, 0) == last_given(
                        before,
                        other,
                        0,
                    ) by {
                        lemma_other_rooms(before, after, i as int, other);
                    }
                    assert(others_kept(before, after, file_id));
                    assert forall|k: int| 0 <= k < after.len() implies (#[trigger] after[k]).wf() by {
                        if k != i {
                            assert(after[k] == before[k]);
                        } else {
                            assert(before[k].wf());
                            let room = after[k];
                            assert forall|x: int| 0 <= x < room.pending@.len() implies (
                            #[trigger] room.pending@[x]).file_id == room.file_id by {
                                if x < taken@.len() {
                                    assert(room.pending@[x] == taken@[x]);
                                } else {
                                    assert(room.pending@[x] == before[k].pending@[x - taken@.len()]);
                                }
                            }
                        }
                    }
                }
            },
            None => {
                let mut sequence_num: u64 = 0;
                let mut t: usize = 0;
                while t < taken.len()
                    invariant
                        t <= taken@.len(),
                        t == 0 ==> sequence_num == 0,
                        t > 0 ==> greatest_number(taken@.take(t as int), sequence_num),
                    decreases taken.len() - t,
                {
                    let ghost seen = taken@.take(t as int);
                    let ghost more = taken@.take(t + 1);
                    let ghost was = sequence_num;
                    if t == 0 || taken[t].sequence_num > sequence_num {
                        sequence_num = taken[t].sequence_num;
                    }
                    proof {
                        assert(more[t as int] == taken@[t as int]);
                        if t > 0 {
                            let w = choose|w: int|
                                0 <= w < seen.len() && (#[trigger] seen[w]).sequence_num == was;
                            assert(more[w] == seen[w]);
                        }
                        assert forall|x: int| 0 <= x < more.len() implies (
                        #[trigger] more[x]).sequence_num <= sequence_num by {
                            if x < t {
                                assert(more[x] == seen[x]);
                            }
                        }
                    }
                    t += 1;
                }
                proof {
                    assert(taken@.take(taken@.len() as int) == taken@);
                }
                self.rooms.push(RoomQueue { file_id, sequence_num, pending: taken });
                proof {
                    let after = self.rooms@;
                    let n = before.len() as int;
                    assert forall|a: int, b: int| 0 <= a < b < after.len() implies (
                    #[trigger] after[a]).file_id != (#[trigger] after[b]).file_id by {
                        assert(after[a] == before[a]);
                        if b < n {
                            assert(after[b] == before[b]);
                        }
                    }
                    assert(is_room(after, file_id, n));
                    lemma_room_unique(after, file_id, n);
                    assert(waiting(before, file_id) == Seq::<TransactionServer>::empty());
                    assert(after[n].pending@ =~= taken@ + waiting(before, file_id));
                    assert forall|other: u128| other != file_id implies #[trigger] waiting(
                        after,
                        other,
                    ) == waiting(before, other) && last_given(after, other, 0) == last_given(
                        before,
                        other,
                        0,
                    ) by {
                        lemma_other_rooms_push(before, after[n], other);
                    }
                    assert(others_kept(before, after, file_id));
                    assert forall|k: int| 0 <= k < after.len() implies (#[trigger] after[k]).wf() by {
                        if k < n {
                            assert(after[k] == before[k]);
                        }
                    }
                }
            },
        }
    }

    /// Takes the waiting transactions of a document out of the queue, once
    /// they are part of a checkpoint. The sequence numbers go on from where
    /// they were. Returns how many transactions were taken out.
    pub fn complete_transactions(&mut self, file_id: u128) -> (r: Result<usize, QueueError>)
        requires
            old(self).wf(),
        ensures
            final(self).wf(),
            old(self).in_order() ==> final(self).in_order(),
            match r {
                Ok(n) => completed(old(self).rooms@, file_id, final(self).rooms@, n as int),
                Err(e) => e == QueueError::UnknownFile(file_id) && no_room(
                    old(self).rooms@,
                    file_id,
                ) && final(self).rooms@ == old(self).rooms@,
            },
    {
        let ghost before = self.rooms@;
        match self.find(file_id) {
            Some(i) => {
                proof {
                    lemma_room_unique(before, file_id, i as int);
                }
                let n = self.rooms[i].pending.len();
                self.rooms[i].pending.clear();
                proof {
                    let after = self.rooms@;
                    assert(after.len() == before.len());
                    assert(after[i as int].sequence_num == before[i as int].sequence_num);
                    assert(after[i as int].file_id == before[i as int].file_id);
                    assert(after[i as int].pending@.len() == 0);
                    assert(waiting(before, file_id) == before[i as int].pending@);
                    assert forall|a: int, b: int| 0 <= a < b < after.len() implies (
                    #[trigger] after[a]).file_id != (#[trigger] after[b]).file_id by {
                        assert(after[a].file_id == before[a].file_id && after[b].file_id
                            == before[b].file_id);
                    }
                    assert forall|k: int| 0 <= k < after.len() implies (#[trigger] after[k]).wf() by {
                        if k != i {
                            assert(after[k] == before[k]);
                        }
                    }
                    assert(is_room(after, file_id, i as int));
                    lemma_room_unique(after, file_id, i as int);
                    assert forall|other: u128| other != file_id implies #[trigger] waiting(
                        after,
                        other,
                    ) == waiting(before, other) && last_given(after, other, 0) == last_given(
                        before,
                        other,
                        0,
                    ) by {
                        lemma_other_rooms(before, after, i as int, other);
                    }
                    assert(waiting(after, file_id).len() == 0);
                    assert(last_given(after, file_id, 0) == last_given(before, file_id, 0));
                    assert(n == waiting(before, file_id).len());
                    assert(completed(before, file_id, after, n as int));
                    if old(self).in_order() {
                        assert forall|k: int| 0 <= k < after.len() implies (
                        #[trigger] after[k]).in_order() by {
                            if k != i {
                                assert(after[k] == before[k]);
                                assert(before[k].in_order());
                            }
                        }
                    }
                }
                Ok(n)
            },
            None => Err(QueueError::UnknownFile(file_id)),
        }
    }
}

/// `n` is the greatest sequence number among the transactions.
pub open spec fn greatest_number(transactions: Seq<TransactionServer>, n: u64) -> bool {
    &&& exists|i: int| 0 <= i < transactions.len() && (#[trigger] transactions[i]).sequence_num == n
    &&& forall|i: int| 0 <= i < transactions.len() ==> (#[trigger] transactions[i]).sequence_num <= n
}

/// For every document but the one given, the same transactions wait in
/// `after` as in `before`, and the last sequence number given out is the
/// same.
pub open spec fn others_kept(before: Seq<RoomQueue>, after: Seq<RoomQueue>, file_id: u128) -> bool {
    forall|other: u128|
        other != file_id ==> #[trigger] waiting(after, other) == waiting(before, other)
            && last_given(after, other, 0) == last_given(before, other, 0)
}

/// `after` is `before` with the waiting transactions of the document taken
/// out, `n` of them, and everything else as it was.
pub open spec fn completed(before: Seq<RoomQueue>, file_id: u128, after: Seq<RoomQueue>, n: int) -> bool {
    &&& !no_room(before, file_id)
    &&& n == waiting(before, file_id).len()
    &&& waiting(after, file_id).len() == 0
    &&& last_given(after, file_id, 0) == last_given(before, file_id, 0)
    &&& forall|other: u128|
        other != file_id ==> #[trigger] waiting(after, other) == waiting(before, other)
            && last_given(after, other, 0) == last_given(before, other, 0)
}

/// The sequence numbers of the transactions go up by one from one to the
/// next.
pub open spec fn in_sequence(transactions: Seq<TransactionServer>) -> bool {
    forall|i: int|
        0 <= i && i + 1 < transactions.len() ==> (#[trigger] transactions[i]).sequence_num + 1
            == transactions[i + 1].sequence_num
}

/// The place of the queue of a document.
pub open spec fn room_index(rooms: Seq<RoomQueue>, file_id: u128) -> int {
    choose|i: int| is_room(rooms, file_id, i)
}

/// The transactions that wait for a document: none where it has no queue.
pub open spec fn waiting(rooms: Seq<RoomQueue>, file_id: u128) -> Seq<TransactionServer> {
    if no_room(rooms, file_id) {
        Seq::empty()
    } else {
        rooms[room_index(rooms, file_id)].pending@
    }
}

/// The last sequence number given out for a document: `otherwise` where it
/// has no queue.
pub open spec fn last_given(rooms: Seq<RoomQueue>, file_id: u128, otherwise: u64) -> u64 {
    if no_room(rooms, file_id) {
        otherwise
    } else {
        rooms[room_index(rooms, file_id)].sequence_num
    }
}

/// The queue of a document is at one place only.
pub proof fn lemma_room_unique(rooms: Seq<RoomQueue>, file_id: u128, i: int)
    requires
        is_room(rooms, file_id, i),
        forall|a: int, b: int|
            0 <= a < b < rooms.len() ==> (#[trigger] rooms[a]).file_id != (#[trigger] rooms[b]).file_id,
    ensures
        room_index(rooms, file_id) == i,
        !no_room(rooms, file_id),
{
    let k = room_index(rooms, file_id);
    if k < i {
        assert(rooms[k].file_id != rooms[i].file_id);
    }
    if i < k {
        assert(rooms[i].file_id != rooms[k].file_id);
    }
}

/// A change of the queue at place `i` leaves the queues of other documents
/// as they are.
proof fn lemma_other_rooms(before: Seq<RoomQueue>, after: Seq<RoomQueue>, i: int, other: u128)
    requires
        0 <= i < before.len(),
        after.len() == before.len(),
        after[i].file_id == before[i].file_id,
        before[i].file_id != other,
        forall|k: int| 0 <= k < before.len() && k != i ==> #[trigger] after[k] == before[k],
        forall|a: int, b: int|
            0 <= a < b < before.len() ==> (#[trigger] before[a]).file_id != (
            #[trigger] before[b]).file_id,
    ensures
        waiting(after, other) == waiting(before, other),
        last_given(after, other, 0) == last_given(before, other, 0),
{
    assert forall|a: int, b: int| 0 <= a < b < after.len() implies (#[trigger] after[a]).file_id != (
    #[trigger] after[b]).file_id by {
        assert(after[a].file_id == before[a].file_id && after[b].file_id == before[b].file_id);
    }
    if no_room(before, other) {
        assert forall|k: int| 0 <= k < after.len() implies (#[trigger] after[k]).file_id
            != other by {
            assert(after[k].file_id == before[k].file_id);
        }
    } else {
        let j = choose|j: int| 0 <= j < before.len() && (#[trigger] before[j]).file_id == other;
        assert(is_room(before, other, j));
        let k = room_index(before, other);
        assert(is_room(before, other, k));
        assert(is_room(after, other, k));
        lemma_room_unique(after, other, k);
    }
}

/// A new queue leaves the queues of other documents as they are.
proof fn lemma_other_rooms_push(before: Seq<RoomQueue>, room: RoomQueue, other: u128)
    requires
        room.file_id != other,
        no_room(before, room.file_id),
        forall|a: int, b: int|
            0 <= a < b < before.len() ==> (#[trigger] before[a]).file_id != (
            #[trigger] before[b]).file_id,
    ensures
        waiting(before.push(room), other) == waiting(before, other),
        last_given(before.push(room), other, 0) == last_given(before, other, 0),
{
    let after = before.push(room);
    assert forall|a: int, b: int| 0 <= a < b < after.len() implies (#[trigger] after[a]).file_id != (
    #[trigger] after[b]).file_id by {
        assert(after[a] == before[a]);
        if b < before.len() {
            assert(after[b] == before[b]);
        }
    }
    if no_room(before, other) {
        assert forall|k: int| 0 <= k < after.len() implies (#[trigger] after[k]).file_id
            != other by {
            if k < before.len() {
                assert(after[k] == before[k]);
            }
        }
    } else {
        let j = choose|j: int| 0 <= j < before.len() && (#[trigger] before[j]).file_id == other;
        assert(is_room(before, other, j));
        let k = room_index(before, other);
        assert(is_room(before, other, k));
        assert(after[k] == before[k]);
        assert(is_room(after, other, k));
        lemma_room_unique(after, other, k);
    }
}

} // verus!
