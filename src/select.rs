use vstd::prelude::*;

use crate::maybe_done::{
    lemma_polled_none_gone, maybe_done_all, none_gone, polled_prefix, running, Context, MaybeDone,
    Poll, Pollable,
};

verus! {

/// A drive of a select took the cells from `before` to `after` and answered
/// `r`: the cells were polled in order up to the first that held its output,
/// whose output was taken and returned; with none, every cell was polled.
pub open spec fn select_drive<Fut: Pollable>(
    before: Seq<MaybeDone<Fut>>,
    after: Seq<MaybeDone<Fut>>,
    r: Poll<Fut::Output>,
) -> bool {
    match r {
        Poll::Ready(v) => exists|k: int, mid: Seq<MaybeDone<Fut>>|
            {
                &&& #[trigger] polled_prefix(before, mid, k + 1)
                &&& 0 <= k < mid.len()
                &&& forall|j: int| 0 <= j < k ==> #[trigger] mid[j] is Future
                &&& mid[k] == MaybeDone::<Fut>::Done(v)
                &&& after == mid.update(k, MaybeDone::<Fut>::Gone)
            },
        Poll::Pending => {
            &&& polled_prefix(before, after, before.len() as int)
            &&& forall|j: int| 0 <= j < after.len() ==> #[trigger] after[j] is Future
        },
    }
}

/// One drive of a select: polls the cells in declaration order and stops at
/// the first that holds its output, which it takes and returns. The cells after
/// the winner are not polled on that drive, and the select must not be driven
/// again after `Ready`. `Pending` when no cell completed.
pub fn select_poll<Fut: Pollable>(cells: &mut Vec<MaybeDone<Fut>>, cx: &mut Context) -> (r: Poll<
    Fut::Output,
>)
    requires
        none_gone(old(cells)@),
    ensures
        select_drive(old(cells)@, final(cells)@, r),
{
    let n = cells.len();
    let mut i: usize = 0;
    while i < n
        invariant
            n == old(cells)@.len(),
            polled_prefix(old(cells)@, cells@, i as int),
            none_gone(old(cells)@),
            forall|j: int| 0 <= j < i ==> #[trigger] cells@[j] is Future,
        decreases n - i,
    {
        proof {
            assert(!(old(cells)@[i as int] is Gone));
        }
        let ghost prev = cells@;
        match cells[i].poll(cx) {
            Poll::Ready(()) => {
                let ghost mid = cells@;
                proof {
                    assert(polled_prefix(old(cells)@, mid, i + 1));
                }
                match cells[i].take_output() {
                    Some(v) => {
                        proof {
                            assert(cells@ =~= mid.update(i as int, MaybeDone::<Fut>::Gone));
                        }
                        return Poll::Ready(v);
                    },
                    None => return Poll::Pending,
                }
            },
            Poll::Pending => {},
        }
        proof {
            assert(forall|j: int| 0 <= j < i ==> cells@[j] == prev[j]);
        }
        i = i + 1;
    }
    Poll::Pending
}

/// Selects among pollables of one output type: ready with the output of the
/// first to complete, earlier declarations winning ties.
pub struct Select<Fut: Pollable> {
    cells: Vec<MaybeDone<Fut>>,
    finished: bool,
}

impl<Fut: Pollable> Select<Fut> {
    #[verifier::type_invariant]
    closed spec fn inv(self) -> bool {
        self.finished || (none_gone(self.cells@))
    }

    /// The cells, in declaration order.
    pub closed spec fn cells(self) -> Seq<MaybeDone<Fut>> {
        self.cells@
    }

    /// Whether the combinator has answered `Ready`.
    pub closed spec fn finished(self) -> bool {
        self.finished
    }

    /// Combines `futures`, none of which has been polled yet.
    pub fn new(futures: Vec<Fut>) -> (r: Self)
        ensures
            r.cells() == running(futures@),
            !r.finished(),
    {
        let cells = maybe_done_all(futures);
        proof {
            assert(none_gone(cells@));
        }
        Select { cells, finished: false }
    }
}

impl<Fut: Pollable> Select<Fut> {
    /// Drives it once; it must not be driven again after answering `Ready`.
    pub fn poll_once(&mut self, cx: &mut Context) -> (r: Poll<Fut::Output>)
        requires
            !old(self).finished(),
        ensures
            select_drive(old(self).cells(), final(self).cells(), r),
            final(self).finished() == r is Ready,
    {
        proof {
            use_type_invariant(&*self);
        }
        let mut cells: Vec<MaybeDone<Fut>> = Vec::new();
        core::mem::swap(&mut cells, &mut self.cells);
        let ghost before = cells@;
        let r = select_poll(&mut cells, cx);
        let finished = matches!(r, Poll::Ready(_));
        proof {
            if !finished {
                lemma_polled_none_gone(before, cells@, before.len() as int);
            }
        }
        self.finished = finished;
        self.cells = cells;
        r
    }
}

impl<Fut: Pollable> Pollable for Select<Fut> {
    type Output = Fut::Output;

    /// A drive as `poll_once` makes it; once finished, `Pending` and no change.
    open spec fn polled(self, next: Self, r: Poll<Fut::Output>) -> bool {
        if self.finished() {
            r is Pending && next == self
        } else {
            select_drive(self.cells(), next.cells(), r) && next.finished() == r is Ready
        }
    }

    fn poll(&mut self, cx: &mut Context) -> (r: Poll<Fut::Output>) {
        if self.finished {
            return Poll::Pending;
        }
        self.poll_once(cx)
    }
}

} // verus!
