//! Putting results back in order. Each frame gets a number when it is
//! captured, and the recognition of the frames runs side by side, so results
//! come in as they finish. The reassembler holds back a result that is ahead
//! of its turn, and hands results on in the order of the frames.

use crate::error::Error;
use crate::ocr::OcrOutput;
use std::collections::HashMap;
use vstd::prelude::*;

verus! {

broadcast use vstd::std_specs::hash::group_hash_axioms;

/// The result of one frame's recognition, with the frame's number: what was
/// recognised, or the error.
#[derive(Debug)]
pub struct OcrChannel {
    pub index: u64,
    pub result: Option<OcrOutput>,
    pub err: Option<Error>,
}

impl OcrChannel {
    /// The result of the frame numbered `index`: what was recognised, or, of
    /// a recognition that failed, nothing and the error.
    pub fn from_result(index: u64, result: Result<OcrOutput, Error>) -> (r: OcrChannel)
        ensures
            r.index == index,
            match result {
                Ok(output) => r.result == Some(output) && r.err is None,
                Err(e) => r.result is None && r.err == Some(e),
            },
    {
        match result {
            Ok(output) => OcrChannel { index, result: Some(output), err: None },
            Err(e) => OcrChannel { index, result: None, err: Some(e) },
        }
    }
}

/// The numbers of the frames: 0, 1, 2 and so on.
pub struct SequenceCounter {
    next: u64,
}

impl SequenceCounter {
    /// The number that the next frame gets.
    pub closed spec fn upcoming(&self) -> u64 {
        self.next
    }

    /// A counter that begins at 0.
    pub fn new() -> (c: SequenceCounter)
        ensures
            c.upcoming() == 0,
    {
        SequenceCounter { next: 0 }
    }

    /// The number for the next frame. The last number of 64 bits is never
    /// given: the counter then gives nothing, and stays.
    pub fn issue(&mut self) -> (index: Option<u64>)
        ensures
            old(self).upcoming() < u64::MAX ==> {
                &&& index == Some(old(self).upcoming())
                &&& final(self).upcoming() == old(self).upcoming() + 1
            },
            old(self).upcoming() == u64::MAX ==> {
                &&& index is None
                &&& final(self).upcoming() == u64::MAX
            },
    {
        if self.next == u64::MAX {
            None
        } else {
            let index = self.next;
            self.next = self.next + 1;
            Some(index)
        }
    }
}

/// The results that are waiting and now have their turn: those numbered
/// `from`, `from + 1` and so on, as far as they are all there.
pub open spec fn ready<T>(pending: Map<u64, T>, from: int) -> Seq<T>
    decreases u64::MAX + 1 - from,
{
    if 0 <= from <= u64::MAX && pending.contains_key(from as u64) {
        seq![pending[from as u64]] + ready(pending, from + 1)
    } else {
        Seq::empty()
    }
}

/// Whether `item` is the result that waits under the number `at`.
pub open spec fn is_turn<T>(pending: Map<u64, T>, at: int, item: T) -> bool {
    0 <= at <= u64::MAX && pending.contains_key(at as u64) && pending[at as u64] == item
}

/// What waits after `count` results from `from` on have been handed on.
pub open spec fn without_run<T>(pending: Map<u64, T>, from: int, count: int) -> Map<u64, T> {
    pending.remove_keys(Set::new(|k: u64| from <= k < from + count))
}

/// The results that have their turn are numbered `from`, `from + 1` and so
/// on without a gap, and the one after them is not there.
pub proof fn lemma_ready<T>(pending: Map<u64, T>, from: int)
    requires
        0 <= from <= u64::MAX + 1,
    ensures
        from + ready(pending, from).len() <= u64::MAX + 1,
        forall|i: int|
            0 <= i < ready(pending, from).len() ==> is_turn(pending, from + i, #[trigger] ready(
                pending,
                from,
            )[i]),
        from + ready(pending, from).len() <= u64::MAX ==> !pending.contains_key(
            (from + ready(pending, from).len()) as u64,
        ),
    decreases u64::MAX + 1 - from,
{
    if from <= u64::MAX && pending.contains_key(from as u64) {
        lemma_ready(pending, from + 1);
        let rest = ready(pending, from + 1);
        assert forall|i: int| 0 <= i < ready(pending, from).len() implies is_turn(
            pending,
            from + i,
            #[trigger] ready(pending, from)[i],
        ) by {
            if i > 0 {
                assert(ready(pending, from)[i] == rest[i - 1]);
                assert(is_turn(pending, from + 1 + (i - 1), rest[i - 1]));
            }
        }
    }
}

/// The reassembler: the number whose turn it is, and the results that came
/// in ahead of their turn.
pub struct Reassembler<T> {
    next: u64,
    pending: HashMap<u64, T>,
}

impl<T> Reassembler<T> {
    #[verifier::type_invariant]
    spec fn last_number_unused(&self) -> bool {
        !self.pending@.contains_key(u64::MAX)
    }

    /// The number whose turn it is.
    pub closed spec fn expected(&self) -> u64 {
        self.next
    }

    /// The results that wait, by number.
    pub closed spec fn waiting(&self) -> Map<u64, T> {
        self.pending@
    }

    /// A reassembler at the beginning: it is the turn of number 0, and
    /// nothing waits.
    pub fn new() -> (r: Self)
        ensures
            r.expected() == 0,
            r.waiting() == Map::<u64, T>::empty(),
    {
        Reassembler { next: 0, pending: HashMap::new() }
    }

    /// The number whose turn it is.
    pub fn next_index(&self) -> (n: u64)
        ensures
            n == self.expected(),
    {
        self.next
    }

    /// How many results wait.
    pub fn pending_len(&self) -> (n: usize)
        ensures
            n == self.waiting().len(),
    {
        self.pending.len()
    }

    /// Takes the result numbered `index` and gives what can be handed on
    /// now, in order. A result whose turn it is not waits, and nothing is
    /// handed on. The result whose turn it is is handed on, and after it
    /// those that waited for it, as far as their numbers follow without a
    /// gap; the turn passes to the number after the last of them.
    pub fn accept(&mut self, index: u64, item: T) -> (delivered: Vec<T>)
        requires
            index < u64::MAX,
        ensures
            index != old(self).expected() ==> {
                &&& delivered@ == Seq::<T>::empty()
                &&& final(self).expected() == old(self).expected()
                &&& final(self).waiting() == old(self).waiting().insert(index, item)
            },
            index == old(self).expected() ==> {
                &&& delivered@ == seq![item] + ready(old(self).waiting(), index + 1)
                &&& final(self).expected() == index + delivered@.len()
                &&& final(self).waiting() == without_run(
                    old(self).waiting(),
                    index + 1,
                    delivered@.len() - 1,
                )
            },
    {
        proof {
            use_type_invariant(&*self);
        }
        let mut delivered: Vec<T> = Vec::new();
        let ghost waiting = self.pending@;
        let mut pending: HashMap<u64, T> = HashMap::new();
        std::mem::swap(&mut pending, &mut self.pending);
        if index != self.next {
            pending.insert(index, item);
            self.pending = pending;
            return delivered;
        }
        delivered.push(item);
        let mut next: u64 = index + 1;
        proof {
            assert(without_run(waiting, index + 1, 0) =~= waiting);
        }
        loop
            invariant
                index < next <= u64::MAX,
                !waiting.contains_key(u64::MAX),
                delivered@.len() == next - index,
                delivered@ + ready(waiting, next as int) == seq![item] + ready(
                    waiting,
                    index + 1,
                ),
                pending@ == without_run(waiting, index + 1, next - index - 1),
            ensures
                delivered@ == seq![item] + ready(waiting, index + 1),
                next == index + delivered@.len(),
                pending@ == without_run(waiting, index + 1, delivered@.len() - 1),
                !pending@.contains_key(u64::MAX),
            decreases u64::MAX - next,
        {
            let ghost before = delivered@;
            match pending.remove(&next) {
                Some(data) => {
                    assert(waiting.contains_key(next) && waiting[next] == data);
                    delivered.push(data);
                    proof {
                        assert(delivered@ + ready(waiting, next + 1) =~= before + ready(
                            waiting,
                            next as int,
                        ));
                        assert(pending@ =~= without_run(waiting, index + 1, next - index));
                    }
                    next = next + 1;
                },
                None => {
                    assert(!waiting.contains_key(next));
                    assert(ready(waiting, next as int) =~= Seq::<T>::empty());
                    assert(delivered@ + Seq::<T>::empty() =~= delivered@);
                    assert(pending@ =~= without_run(waiting, index + 1, next - index - 1));
                    break ;
                },
            }
        }
        self.next = next;
        self.pending = pending;
        delivered
    }
}

} // verus!
