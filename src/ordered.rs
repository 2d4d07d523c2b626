//! Puts results back in record order: callbacks may fire in any order, but a
//! batch writes record `n` only after records `0..n`.
use vstd::prelude::*;
use crate::worker::{holds_job, jobs_without, lemma_without, without};

verus! {

/// Why a result was refused.
#[derive(Clone, Copy, Debug, PartialEq, Eq, Structural)]
pub enum OrderError {
    /// This record was accepted already.
    Duplicate { record: u64 },
}

/// The records written so far are `0..next`; `waiting` holds the later ones that
/// arrived early, each once.
pub struct InOrder {
    pub next: u64,
    pub waiting: Vec<u64>,
}

impl InOrder {
    /// The invariant: every waiting record is later than `next`, below
    /// `u64::MAX`, and waits once.
    pub open spec fn wf(&self) -> bool {
        &&& self.waiting@.no_duplicates()
        &&& forall|i: int|
            0 <= i < self.waiting@.len() ==> self.next < #[trigger] self.waiting@[i] < u64::MAX
    }

    /// Nothing written, nothing waiting.
    pub fn new() -> (s: InOrder)
        ensures
            s.next == 0,
            s.waiting@ == Seq::<u64>::empty(),
            s.wf(),
    {
        InOrder { next: 0, waiting: Vec::new() }
    }

    /// Accepts the result of `record` and returns the records that may now be
    /// written, in order: `next` and the run of waiting records after it. A
    /// record accepted before is refused and nothing changes.
    pub fn accept(&mut self, record: u64) -> (r: Result<Vec<u64>, OrderError>)
        requires
            old(self).wf(),
            record < u64::MAX,
        ensures
            final(self).wf(),
            (record < old(self).next || old(self).waiting@.contains(record)) ==> r == Err::<
                Vec<u64>,
                OrderError,
            >(OrderError::Duplicate { record }) && final(self).next == old(self).next
                && final(self).waiting@ == old(self).waiting@,
            !(record < old(self).next || old(self).waiting@.contains(record)) ==> {
                &&& r is Ok
                &&& old(self).next <= final(self).next
                &&& r->Ok_0@ == Seq::new(
                    (final(self).next - old(self).next) as nat,
                    |i: int| (old(self).next + i) as u64,
                )
                &&& forall|k: u64|
                    old(self).next <= k < final(self).next ==> k == record || old(
                        self,
                    ).waiting@.contains(k)
                &&& final(self).next != record && !old(self).waiting@.contains(final(self).next)
                &&& forall|x: u64|
                    #[trigger] final(self).waiting@.contains(x) <==> ((old(self).waiting@.contains(x)
                        || x == record) && x > final(self).next)
            },
    {
        if record < self.next || holds_job(&self.waiting, record) {
            return Err(OrderError::Duplicate { record });
        }
        let ghost w0 = self.waiting@;
        let ghost n0 = self.next;
        self.waiting.push(record);
        let mut released: Vec<u64> = Vec::new();
        proof {
            assert forall|x: u64| self.waiting@.contains(x) <==> (w0.contains(x) || x == record) by {
                if self.waiting@.contains(x) {
                    let k = choose|k: int| 0 <= k < self.waiting@.len() && self.waiting@[k] == x;
                    if k < w0.len() {
                        assert(w0[k] == x);
                    }
                }
                if w0.contains(x) {
                    let k = choose|k: int| 0 <= k < w0.len() && w0[k] == x;
                    assert(self.waiting@[k] == x);
                }
                if x == record {
                    assert(self.waiting@[w0.len() as int] == x);
                }
            }
            assert forall|i: int, j: int|
                0 <= i < self.waiting@.len() && 0 <= j < self.waiting@.len() && i != j implies
                self.waiting@[i] != self.waiting@[j] by {
                if i < w0.len() && j < w0.len() {
                    assert(self.waiting@[i] == w0[i] && self.waiting@[j] == w0[j]);
                } else if i < w0.len() {
                    assert(w0.contains(self.waiting@[i]));
                } else if j < w0.len() {
                    assert(w0.contains(self.waiting@[j]));
                }
            }
        }
        loop
            invariant
                n0 <= self.next,
                self.waiting@.no_duplicates(),
                forall|i: int|
                    0 <= i < self.waiting@.len() ==> self.next <= #[trigger] self.waiting@[i]
                        < u64::MAX,
                forall|x: u64|
                    #[trigger] self.waiting@.contains(x) <==> ((w0.contains(x) || x == record) && x
                        >= self.next),
                released@ =~= Seq::new((self.next - n0) as nat, |i: int| (n0 + i) as u64),
                forall|k: u64| n0 <= k < self.next ==> k == record || w0.contains(k),
            ensures
                !self.waiting@.contains(self.next),
            decreases u64::MAX - self.next,
        {
            if !holds_job(&self.waiting, self.next) {
                break;
            }
            let ghost before = self.waiting@;
            let ghost cur = self.next;
            proof {
                lemma_without(before, cur);
                let k = choose|k: int| 0 <= k < before.len() && before[k] == cur;
                assert(before[k] < u64::MAX);
            }
            self.waiting = jobs_without(&self.waiting, self.next);
            released.push(self.next);
            self.next = self.next + 1;
            proof {
                assert forall|i: int| 0 <= i < self.waiting@.len() implies self.next
                    <= #[trigger] self.waiting@[i] < u64::MAX by {
                    let x = self.waiting@[i];
                    assert(self.waiting@.contains(x));
                    assert(before.contains(x) && x != cur);
                    let k = choose|k: int| 0 <= k < before.len() && before[k] == x;
                    assert(cur <= before[k]);
                }
                assert forall|x: u64| #[trigger] self.waiting@.contains(x) <==> ((w0.contains(x)
                    || x == record) && x >= self.next) by {
                    assert(self.waiting@.contains(x) <==> (before.contains(x) && x != cur));
                }
                assert(before.contains(cur));
            }
        }
        proof {
            assert(!self.waiting@.contains(self.next));
            assert forall|i: int| 0 <= i < self.waiting@.len() implies self.next
                < #[trigger] self.waiting@[i] < u64::MAX by {
                assert(self.next <= self.waiting@[i]);
                if self.waiting@[i] == self.next {
                    assert(self.waiting@.contains(self.next));
                }
            }
        }
        Ok(released)
    }
}

} // verus!
