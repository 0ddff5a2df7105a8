//! A batch of requests with a cap on how many are under way.

use crate::error::Error;
use vstd::prelude::*;

verus! {

/// A batch: its results come in any order and are given in the order of its inputs. The first
/// failure ends it.
#[derive(Debug)]
pub struct Batch<T> {
    slots: Vec<Option<T>>,
    next: usize,
    in_flight: usize,
    concurrency: usize,
    failed: bool,
}

/// The value of a [`Batch`].
pub struct BatchView<T> {
    /// A result for each input that is done.
    pub slots: Seq<Option<T>>,
    /// The inputs before this one have been started.
    pub next: int,
    /// How many requests are under way.
    pub in_flight: int,
    pub concurrency: int,
    /// A request failed.
    pub failed: bool,
}

impl<T> View for Batch<T> {
    type V = BatchView<T>;

    closed spec fn view(&self) -> BatchView<T> {
        BatchView {
            slots: self.slots@,
            next: self.next as int,
            in_flight: self.in_flight as int,
            concurrency: self.concurrency as int,
            failed: self.failed,
        }
    }
}

/// How many results are there among the first `n`.
pub open spec fn filled<T>(slots: Seq<Option<T>>, n: int) -> int
    decreases n,
{
    if n <= 0 {
        0
    } else {
        filled(slots, n - 1) + (if slots[n - 1] is Some {
            1int
        } else {
            0
        })
    }
}

impl<T> BatchView<T> {
    /// Nothing beyond the cap is under way; what was started is under way or done; what was not
    /// started is not done.
    pub open spec fn wf(self) -> bool {
        &&& 1 <= self.concurrency
        &&& 0 <= self.in_flight <= self.concurrency
        &&& 0 <= self.next <= self.slots.len()
        &&& self.in_flight + filled(self.slots, self.slots.len() as int) == self.next
        &&& forall|i: int| self.next <= i < self.slots.len() ==> (#[trigger] self.slots[i]) is None
    }

    /// Whether another request may start.
    pub open spec fn may_start(self) -> bool {
        !self.failed && self.in_flight < self.concurrency && self.next < self.slots.len()
    }

    /// Whether input `i` is under way.
    pub open spec fn under_way(self, i: int) -> bool {
        0 <= i < self.next && self.slots[i] is None
    }

    /// The batch after the result of input `i`.
    pub open spec fn with_result(self, i: int, v: T) -> BatchView<T> {
        BatchView {
            slots: self.slots.update(i, Some(v)),
            in_flight: self.in_flight - 1,
            ..self
        }
    }

    /// The batch after a failure.
    pub open spec fn ended(self) -> BatchView<T> {
        BatchView { failed: true, ..self }
    }

    /// Whether every input has its result.
    pub open spec fn complete(self) -> bool {
        forall|i: int| 0 <= i < self.slots.len() ==> (#[trigger] self.slots[i]) is Some
    }
}

/// A batch of `n` inputs of which none has been started.
pub open spec fn fresh<T>(n: nat, concurrency: usize) -> BatchView<T> {
    BatchView {
        slots: Seq::new(n, |i: int| None),
        next: 0,
        in_flight: 0,
        concurrency: if concurrency == 0 {
            1
        } else {
            concurrency as int
        },
        failed: false,
    }
}

proof fn lemma_filled_bounds<T>(slots: Seq<Option<T>>, n: int)
    requires
        0 <= n <= slots.len(),
    ensures
        0 <= filled(slots, n) <= n,
        filled(slots, n) == n <==> forall|i: int| 0 <= i < n ==> (#[trigger] slots[i]) is Some,
    decreases n,
{
    if n > 0 {
        lemma_filled_bounds(slots, n - 1);
        if filled(slots, n) == n {
            assert(slots[n - 1] is Some);
        } else if filled(slots, n - 1) == n - 1 {
            assert(slots[n - 1] is None);
        }
    }
}

proof fn lemma_filled_update<T>(slots: Seq<Option<T>>, i: int, v: T, n: int)
    requires
        0 <= i < slots.len(),
        slots[i] is None,
        0 <= n <= slots.len(),
    ensures
        filled(slots.update(i, Some(v)), n) == filled(slots, n) + (if i < n {
            1int
        } else {
            0
        }),
    decreases n,
{
    if n > 0 {
        lemma_filled_update(slots, i, v, n - 1);
    }
}

proof fn lemma_filled_none<T>(slots: Seq<Option<T>>, n: int)
    requires
        forall|i: int| 0 <= i < n ==> (#[trigger] slots[i]) is None,
    ensures
        filled(slots, n) == 0,
    decreases n,
{
    if n > 0 {
        lemma_filled_none(slots, n - 1);
    }
}

impl<T> Batch<T> {
    pub open spec fn wf(&self) -> bool {
        self@.wf()
    }

    /// A batch of `n` inputs with at most `concurrency` (at least one) requests under way.
    pub fn new(n: usize, concurrency: usize) -> (r: Self)
        ensures
            r.wf(),
            r@ == fresh::<T>(n as nat, concurrency),
    {
        let mut slots: Vec<Option<T>> = Vec::new();
        let mut i: usize = 0;
        while i < n
            invariant
                i <= n,
                slots@.len() == i,
                forall|j: int| 0 <= j < i ==> (#[trigger] slots@[j]) is None,
            decreases n - i,
        {
            slots.push(None);
            i += 1;
        }
        proof {
            lemma_filled_none(slots@, n as int);
            assert(slots@ =~= Seq::new(n as nat, |i: int| None));
        }
        Batch {
            slots,
            next: 0,
            in_flight: 0,
            concurrency: if concurrency == 0 {
                1
            } else {
                concurrency
            },
            failed: false,
        }
    }

    /// The next input to start, as long as the cap allows one more.
    pub fn start(&mut self) -> (r: Option<usize>)
        requires
            old(self).wf(),
        ensures
            final(self).wf(),
            r is Some == old(self)@.may_start(),
            r is Some ==> r->0 == old(self)@.next && final(self)@ == (BatchView {
                next: old(self)@.next + 1,
                in_flight: old(self)@.in_flight + 1,
                ..old(self)@
            }),
            r is None ==> final(self)@ == old(self)@,
    {
        if !self.failed && self.in_flight < self.concurrency && self.next < self.slots.len() {
            let i: usize = self.next;
            self.next = i + 1;
            self.in_flight = self.in_flight + 1;
            Some(i)
        } else {
            None
        }
    }

    /// Notes what input `i`, which is under way, came to. A failure is given back and ends the
    /// batch.
    pub fn finish(&mut self, i: usize, res: Result<T, Error>) -> (r: Result<(), Error>)
        requires
            old(self).wf(),
            !old(self)@.failed,
            old(self)@.under_way(i as int),
        ensures
            final(self).wf(),
            match res {
                Ok(v) => r is Ok && final(self)@ == old(self)@.with_result(i as int, v),
                Err(e) => r == Err::<(), Error>(e) && final(self)@ == old(self)@.ended(),
            },
    {
        match res {
            Err(e) => {
                self.failed = true;
                Err(e)
            },
            Ok(v) => {
                proof {
                    lemma_filled_update(self.slots@, i as int, v, self.slots@.len() as int);
                    lemma_next_bound(self@);
                    if self.in_flight == 0 {
                        lemma_all_started_done(self@, i as int);
                    }
                }
                self.slots[i] = Some(v);
                self.in_flight = self.in_flight - 1;
                assert(self.slots@ =~= old(self)@.slots.update(i as int, Some(v)));
                Ok(())
            },
        }
    }

    /// Whether every input has its result.
    pub fn is_complete(&self) -> (r: bool)
        requires
            self.wf(),
        ensures
            r == self@.complete(),
    {
        proof {
            lemma_filled_bounds(self.slots@, self.slots@.len() as int);
        }
        self.in_flight == 0 && self.next == self.slots.len()
    }

    /// The results in the order of the inputs.
    pub fn into_results(self) -> (r: Vec<T>)
        requires
            self@.complete(),
        ensures
            r@.len() == self@.slots.len(),
            forall|i: int| 0 <= i < r@.len() ==> self@.slots[i] == Some(#[trigger] r@[i]),
    {
        let ghost all = self@.slots;
        let mut slots = self.slots;
        let mut back: Vec<T> = Vec::new();
        while slots.len() > 0
            invariant
                slots@.len() + back@.len() == all.len(),
                slots@ =~= all.take(slots@.len() as int),
                forall|i: int| 0 <= i < all.len() ==> (#[trigger] all[i]) is Some,
                forall|k: int|
                    0 <= k < back@.len() ==> all[all.len() - 1 - k] == Some(#[trigger] back@[k]),
            decreases slots@.len(),
        {
            let ghost n = slots@.len();
            let last = slots.pop();
            match last {
                Some(Some(v)) => {
                    back.push(v);
                },
                _ => {
                    assert(all[n - 1] is Some);
                },
            }
        }
        let mut out: Vec<T> = Vec::new();
        let ghost rev = back@;
        while back.len() > 0
            invariant
                rev.len() == all.len(),
                back@.len() + out@.len() == all.len(),
                back@ =~= rev.take(back@.len() as int),
                forall|k: int|
                    0 <= k < rev.len() ==> all[all.len() - 1 - k] == Some(#[trigger] rev[k]),
                forall|i: int| 0 <= i < out@.len() ==> all[i] == Some(#[trigger] out@[i]),
            decreases back@.len(),
        {
            let ghost n = back@.len();
            match back.pop() {
                Some(v) => {
                    assert(v == rev[n - 1]);
                    out.push(v);
                },
                None => {},
            }
        }
        out
    }
}

proof fn lemma_next_bound<T>(b: BatchView<T>)
    requires
        b.wf(),
    ensures
        filled(b.slots, b.slots.len() as int) == filled(b.slots, b.next),
    decreases b.slots.len() - b.next,
{
    lemma_filled_tail(b.slots, b.next, b.slots.len() as int);
}

proof fn lemma_filled_tail<T>(slots: Seq<Option<T>>, a: int, n: int)
    requires
        0 <= a <= n <= slots.len(),
        forall|i: int| a <= i < n ==> (#[trigger] slots[i]) is None,
    ensures
        filled(slots, n) == filled(slots, a),
    decreases n - a,
{
    if a < n {
        lemma_filled_tail(slots, a, n - 1);
    }
}

/// With nothing under way, everything started is done.
proof fn lemma_all_started_done<T>(b: BatchView<T>, i: int)
    requires
        b.wf(),
        b.in_flight == 0,
        0 <= i < b.next,
    ensures
        b.slots[i] is Some,
{
    lemma_next_bound(b);
    lemma_filled_bounds(b.slots, b.next);
}

/// A batch never stalls: while results are missing and nothing has failed, a request is under way
/// or may start.
pub proof fn law_batch_makes_progress<T>(b: BatchView<T>)
    requires
        b.wf(),
        !b.failed,
        !b.complete(),
    ensures
        b.in_flight > 0 || b.may_start(),
{
    lemma_filled_bounds(b.slots, b.slots.len() as int);
}

/// A freed place is filled at once: after a result another request may start if any is left.
pub proof fn law_batch_refills_its_places<T>(b: BatchView<T>, i: int, v: T)
    requires
        b.wf(),
        !b.failed,
        b.under_way(i),
        b.next < b.slots.len(),
    ensures
        b.with_result(i, v).may_start(),
{
}

/// A result stays in its own place, whatever comes after it.
pub proof fn law_results_keep_their_places<T>(b: BatchView<T>, i: int, v: T, k: int, w: T)
    requires
        b.wf(),
        b.under_way(i),
        b.with_result(i, v).under_way(k),
    ensures
        i != k,
        b.with_result(i, v).with_result(k, w).slots[i] == Some(v),
        b.with_result(i, v).with_result(k, w).slots[k] == Some(w),
{
}

/// After the first failure nothing starts and the batch has no results.
pub proof fn law_first_failure_ends_a_batch<T>(b: BatchView<T>, i: int)
    requires
        b.wf(),
        b.under_way(i),
    ensures
        !b.ended().may_start(),
        !b.ended().complete(),
        b.ended().slots == b.slots,
{
}

/// A batch begins with nothing started and nothing done, and room for as many requests as told, at
/// least one.
pub proof fn law_a_batch_begins_with_nothing_started<T>(n: nat, concurrency: usize)
    ensures
        ({
            let b = fresh::<T>(n, concurrency);
            &&& b.slots.len() == n
            &&& forall|i: int| 0 <= i < n ==> (#[trigger] b.slots[i]) is None
            &&& b.next == 0 && b.in_flight == 0 && !b.failed
            &&& concurrency > 0 ==> b.concurrency == concurrency
            &&& concurrency == 0 ==> b.concurrency == 1
            &&& b.may_start() <==> n > 0
            &&& b.complete() <==> n == 0
        }),
{
    let b = fresh::<T>(n, concurrency);
    if n > 0 {
        assert(b.slots[0] is None);
    }
}

/// A request starts exactly while fewer are under way than may be, some input is left, and none has
/// failed. What is under way has been started and has no result yet.
pub proof fn law_when_a_request_may_start<T>(b: BatchView<T>, i: int)
    ensures
        b.may_start() <==> !b.failed && b.in_flight < b.concurrency && b.next < b.slots.len(),
        b.under_way(i) <==> 0 <= i < b.next && b.slots[i] is None,
{
}

/// A result goes to its own place and frees one: the other places, what has been started and the
/// cap stay. A failure keeps the results that are there and lets nothing start any more.
pub proof fn law_a_result_goes_to_its_place<T>(b: BatchView<T>, i: int, v: T, k: int)
    requires
        0 <= i < b.slots.len(),
    ensures
        ({
            let t = b.with_result(i, v);
            &&& t.slots.len() == b.slots.len()
            &&& t.slots[i] == Some(v)
            &&& 0 <= k < b.slots.len() && k != i ==> t.slots[k] == b.slots[k]
            &&& t.in_flight == b.in_flight - 1
            &&& t.next == b.next && t.concurrency == b.concurrency && t.failed == b.failed
        }),
        ({
            let t = b.ended();
            &&& t.failed
            &&& t.slots == b.slots && t.next == b.next && t.concurrency == b.concurrency
            &&& !t.may_start()
        }),
        b.complete() <==> forall|j: int| 0 <= j < b.slots.len() ==> (#[trigger] b.slots[j]) is Some,
{
}

} // verus!
