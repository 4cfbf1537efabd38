//! Carrying out queued operations on hardware that can fail.
//!
//! The operations of a queue are performed in order. The first fault ends
//! the work: nothing that was still to come is performed, except that a
//! release of both controllers at the end of the queue is still attempted.
//! The fault is what the caller gets back. The transaction also remembers
//! where the first fault fell, so that the caller can tell how many bytes
//! of a stream were written before it.

use crate::bus::release_wire;
use crate::bus::wire_of;
use crate::bus::BusOp;
use crate::bus::Level;
use crate::bus::Line;
use crate::bus::Wire;
use vstd::prelude::*;

verus! {

/// The operations end with the release of both controllers.
pub open spec fn ends_released(ops: Seq<Wire>) -> bool {
    &&& ops.len() >= 2
    &&& ops[ops.len() - 2] == release_wire()[0]
    &&& ops[ops.len() - 1] == release_wire()[1]
}

/// The index of the first operation that is performed even after a fault:
/// the first of the release at the end of the queue, or the length of the
/// queue where it does not end with a release.
pub open spec fn release_start(ops: Seq<Wire>) -> int {
    if ends_released(ops) {
        ops.len() - 2
    } else {
        ops.len() as int
    }
}

/// The index of the operation that follows operation `at`, which went well
/// or not. An index of `len` or more means that none follows.
pub open spec fn successor(release: int, at: int, ok: bool) -> int {
    if ok || at + 1 >= release {
        at + 1
    } else {
        release
    }
}

/// The fault that is kept: the one reported first.
pub open spec fn first_fault<E>(before: Option<E>, error: E) -> E {
    match before {
        Some(first) => first,
        None => error,
    }
}

/// What to do next.
#[derive(Debug, PartialEq, Eq)]
pub enum Step<E> {
    /// Perform the operation with this index in the queue and report how it
    /// went.
    Perform(usize),
    /// Nothing is left to do. The work as a whole went well, or failed with
    /// the first fault that was reported.
    Finish(Result<(), E>),
}

/// The step that leads to the operation with index `next`, or ends the
/// work where there is none.
pub open spec fn step_to<E>(len: int, next: int, fault: Option<E>) -> Step<E> {
    if next < len {
        Step::Perform(next as usize)
    } else {
        Step::Finish(
            match fault {
                Some(error) => Err(error),
                None => Ok(()),
            },
        )
    }
}

/// The progress through one queue of operations.
#[derive(Debug)]
pub struct Transaction<E> {
    len: usize,
    release: usize,
    at: usize,
    fault: Option<E>,
    stopped: usize,
}

impl<E> Transaction<E> {
    /// The number of operations in the queue.
    pub closed spec fn len(&self) -> int {
        self.len as int
    }

    /// The index of the first operation that is performed even after a
    /// fault.
    pub closed spec fn release(&self) -> int {
        self.release as int
    }

    /// The index of the operation in hand.
    pub closed spec fn at(&self) -> int {
        self.at as int
    }

    /// The first fault that was reported, if any.
    pub closed spec fn fault(&self) -> Option<E> {
        self.fault
    }

    /// The index of the first operation that failed, or the length of the
    /// queue while none has.
    pub closed spec fn fault_at(&self) -> int {
        self.stopped as int
    }

    /// The index of the first operation that failed, or the length of the
    /// queue while none has.
    pub fn first_fault_index(&self) -> (index: usize)
        ensures
            index == self.fault_at(),
    {
        self.stopped
    }

    /// Starts on a queue of operations.
    pub fn new(ops: &[BusOp]) -> (transaction: Self)
        ensures
            transaction.len() == ops@.len(),
            transaction.release() == release_start(wire_of(ops@)),
            transaction.at() == 0,
            transaction.fault() == None::<E>,
            transaction.fault_at() == ops@.len(),
    {
        let len = ops.len();
        let released = len >= 2 && match (&ops[len - 2], &ops[len - 1]) {
            (BusOp::Pin(Line::Cs1, Level::High), BusOp::Pin(Line::Cs2, Level::High)) => true,
            _ => false,
        };
        proof {
            let wire = wire_of(ops@);
            if len >= 2 {
                assert(wire[len - 2] == ops@[len - 2]@);
                assert(wire[len - 1] == ops@[len - 1]@);
            }
        }
        Transaction {
            len,
            release: if released {
                len - 2
            } else {
                len
            },
            at: 0,
            fault: None,
            stopped: len,
        }
    }

    /// The step to the operation in hand: for a new transaction, the first
    /// operation of the queue. Where no operation is left, the end, with
    /// the fault where one was reported.
    pub fn start(&mut self) -> (step: Step<E>)
        ensures
            step == step_to(old(self).len(), old(self).at(), old(self).fault()),
            final(self).len() == old(self).len(),
            final(self).release() == old(self).release(),
            final(self).at() == old(self).at(),
            final(self).fault_at() == old(self).fault_at(),
            final(self).fault() == if old(self).at() < old(self).len() {
                old(self).fault()
            } else {
                None
            },
    {
        if self.at < self.len {
            Step::Perform(self.at)
        } else {
            match self.fault.take() {
                Some(error) => Step::Finish(Err(error)),
                None => Step::Finish(Ok(())),
            }
        }
    }

    /// The step after the operation in hand went well: the next operation
    /// of the queue.
    pub fn done(&mut self) -> (step: Step<E>)
        ensures
            final(self).len() == old(self).len(),
            final(self).release() == old(self).release(),
            final(self).at() == if old(self).at() < old(self).len() {
                successor(old(self).release(), old(self).at(), true)
            } else {
                old(self).at()
            },
            step == step_to(old(self).len(), final(self).at(), old(self).fault()),
            final(self).fault_at() == old(self).fault_at(),
            final(self).fault() == if final(self).at() < old(self).len() {
                old(self).fault()
            } else {
                None
            },
    {
        if self.at < self.len {
            self.at = self.at + 1;
        }
        self.start()
    }

    /// The step after the operation in hand failed with `error`: what was
    /// still to come is passed over, up to the release at the end of the
    /// queue. The first fault reported is the one that is kept.
    pub fn failed(&mut self, error: E) -> (step: Step<E>)
        ensures
            final(self).len() == old(self).len(),
            final(self).release() == old(self).release(),
            final(self).at() == if old(self).at() < old(self).len() {
                successor(old(self).release(), old(self).at(), false)
            } else {
                old(self).at()
            },
            step == step_to(
                old(self).len(),
                final(self).at(),
                Some(first_fault(old(self).fault(), error)),
            ),
            final(self).fault() == if final(self).at() < old(self).len() {
                Some(first_fault(old(self).fault(), error))
            } else {
                None
            },
            final(self).fault_at() == if old(self).at() < old(self).len() && old(self).fault_at()
                >= old(self).len() {
                old(self).at()
            } else {
                old(self).fault_at()
            },
    {
        if self.fault.is_none() {
            self.fault = Some(error);
        }
        if self.at < self.len && self.stopped >= self.len {
            self.stopped = self.at;
        }
        if self.at < self.len {
            if self.at + 1 < self.release {
                self.at = self.release;
            } else {
                self.at = self.at + 1;
            }
        }
        self.start()
    }
}

/// The number of bytes that an operation writes in the data phase.
pub open spec fn data_len(op: Wire) -> int {
    match op {
        Wire::Data(bytes) => bytes.len() as int,
        _ => 0,
    }
}

/// The number of bytes written in the data phase by the operations from
/// index `from` up to, and without, index `to`.
pub open spec fn data_bytes(ops: Seq<Wire>, from: int, to: int) -> int
    decreases to - from,
{
    if to <= from {
        0
    } else {
        data_bytes(ops, from, to - 1) + data_len(ops[to - 1])
    }
}

/// The count of bytes is never negative.
pub proof fn lemma_data_bytes_bounds(ops: Seq<Wire>, from: int, to: int)
    ensures
        0 <= data_bytes(ops, from, to),
    decreases to - from,
{
    if from < to {
        lemma_data_bytes_bounds(ops, from, to - 1);
    }
}

/// The bytes of the front of a queue do not depend on what follows in the
/// queue.
pub proof fn lemma_data_bytes_front(front: Seq<Wire>, rest: Seq<Wire>, to: int)
    requires
        0 <= to <= front.len(),
    ensures
        data_bytes(front + rest, 0, to) == data_bytes(front, 0, to),
    decreases to,
{
    if to > 0 {
        lemma_data_bytes_front(front, rest, to - 1);
    }
}

/// The bytes of a queue up to a place in its rest are those of its whole
/// front and those of the rest up to that place.
pub proof fn lemma_data_bytes_add(front: Seq<Wire>, rest: Seq<Wire>, to: int)
    requires
        0 <= to <= rest.len(),
    ensures
        data_bytes(front + rest, 0, front.len() + to) == data_bytes(
            front,
            0,
            front.len() as int,
        ) + data_bytes(rest, 0, to),
    decreases to,
{
    if to == 0 {
        lemma_data_bytes_front(front, rest, front.len() as int);
    } else {
        lemma_data_bytes_add(front, rest, to - 1);
        assert((front + rest)[front.len() + to - 1] == rest[to - 1]);
    }
}

/// The bytes of the rest of a queue, counted from where the rest begins,
/// do not depend on the front of the queue.
pub proof fn lemma_data_bytes_rest(front: Seq<Wire>, rest: Seq<Wire>, to: int)
    requires
        0 <= to <= rest.len(),
    ensures
        data_bytes(front + rest, front.len() as int, front.len() + to) == data_bytes(rest, 0, to),
    decreases to,
{
    if to > 0 {
        lemma_data_bytes_rest(front, rest, to - 1);
        assert((front + rest)[front.len() + to - 1] == rest[to - 1]);
    }
}

/// The smaller of the two.
pub open spec fn at_most(value: int, limit: int) -> int {
    if value <= limit {
        value
    } else {
        limit
    }
}

/// The number of bytes that were written in the data phase by the
/// operations from index `from` on, when the operation with index `fault`
/// was the first to fail: the bytes of the operations before it. With
/// `fault` at the length of the queue, or beyond, these are the bytes of
/// the whole queue from `from` on. The count stops at the largest number
/// that fits.
pub fn streamed(ops: &[BusOp], from: usize, fault: usize) -> (count: usize)
    ensures
        count == at_most(
            data_bytes(wire_of(ops@), from as int, at_most(fault as int, ops@.len() as int)),
            usize::MAX as int,
        ),
{
    let end = if fault <= ops.len() {
        fault
    } else {
        ops.len()
    };
    let mut count: usize = 0;
    let mut i = from;
    while i < end
        invariant
            end <= ops@.len(),
            from <= i,
            i <= end || i == from,
            count == at_most(data_bytes(wire_of(ops@), from as int, i as int), usize::MAX as int),
            0 <= data_bytes(wire_of(ops@), from as int, i as int),
        decreases end - i,
    {
        let len = match &ops[i] {
            BusOp::Data(bytes) => bytes.len(),
            _ => 0,
        };
        assert(len == data_len(wire_of(ops@)[i as int]));
        if len > usize::MAX - count {
            count = usize::MAX;
        } else {
            count = count + len;
        }
        i = i + 1;
    }
    assert(i == end || data_bytes(wire_of(ops@), from as int, end as int) == 0);
    count
}

/// No operation from `from` up to, and without, `to` fails.
pub open spec fn clear(fails: spec_fn(int) -> bool, from: int, to: int) -> bool {
    forall|j: int| from <= j < to ==> !#[trigger] fails(j)
}

/// The indices of the operations that are performed, in order, from
/// operation `at` on. `fails` tells of each operation whether it fails.
pub open spec fn performed(len: int, release: int, at: int, fails: spec_fn(int) -> bool) -> Seq<
    int,
>
    decreases
            (if at < len {
                len - at
            } else {
                0
            }),
{
    if at >= len {
        Seq::empty()
    } else {
        seq![at] + performed(len, release, successor(release, at, !fails(at)), fails)
    }
}

/// Whatever fails, the operations that are performed are those up to and
/// with the first one that fails, and those of the release. They are
/// performed in the order of the queue.
pub proof fn lemma_performed(len: int, release: int, at: int, fails: spec_fn(int) -> bool)
    requires
        0 <= at,
    ensures
        forall|i: int|
            #[trigger] performed(len, release, at, fails).contains(i) <==> at <= i < len && (clear(
                fails,
                at,
                i,
            ) || release <= i),
        forall|m: int, n: int|
            0 <= m < n < performed(len, release, at, fails).len() ==> performed(
                len,
                release,
                at,
                fails,
            )[m] < performed(len, release, at, fails)[n],
    decreases
            (if at < len {
                len - at
            } else {
                0
            }),
{
    let all = performed(len, release, at, fails);
    if at < len {
        let next = successor(release, at, !fails(at));
        let rest = performed(len, release, next, fails);
        lemma_performed(len, release, next, fails);
        assert forall|i: int| #[trigger] all.contains(i) <==> at <= i < len && (clear(fails, at, i)
            || release <= i) by {
            let wanted = at <= i < len && (clear(fails, at, i) || release <= i);
            if all.contains(i) {
                let k = choose|k: int| 0 <= k < all.len() && all[k] == i;
                if k > 0 {
                    assert(rest.contains(i));
                    if !fails(at) && clear(fails, next, i) {
                        assert forall|j: int| at <= j < i implies !#[trigger] fails(j) by {
                            if j > at {
                                assert(next <= j < i);
                            }
                        }
                    }
                }
            }
            if wanted {
                if i == at {
                    assert(all[0] == i);
                } else {
                    if !fails(at) && clear(fails, at, i) {
                        assert forall|j: int| next <= j < i implies !#[trigger] fails(j) by {
                            assert(at <= j < i);
                        }
                    }
                    assert(rest.contains(i));
                    let k = choose|k: int| 0 <= k < rest.len() && rest[k] == i;
                    assert(all[k + 1] == i);
                }
            }
        }
        assert forall|m: int, n: int| 0 <= m < n < all.len() implies all[m] < all[n] by {
            assert(rest.contains(rest[n - 1]));
            if m > 0 {
                assert(all[m] == rest[m - 1]);
            }
        }
    }
}

} // verus!
