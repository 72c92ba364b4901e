use vstd::prelude::*;

use crate::maybe_done::{
    all_done, holds_err, holds_ok, lemma_polled_none_gone, maybe_done_all, none_gone, polled_prefix,
    running, Context, MaybeDone, Poll, Pollable,
};

verus! {

/// A drive of a select for the first success took the cells from `before` to
/// `after` and answered `r`: the cells were polled in order up to the first
/// holding a success, which was taken and returned; with none, every cell was
/// polled, and when all held failures the first one's was taken and returned.
pub open spec fn try_select_drive<T, E, Fut: Pollable<Output = Result<T, E>>>(
    before: Seq<MaybeDone<Fut>>,
    after: Seq<MaybeDone<Fut>>,
    r: Poll<Result<T, E>>,
) -> bool {
    match r {
        Poll::Ready(Ok(v)) => exists|k: int, mid: Seq<MaybeDone<Fut>>|
            {
                &&& #[trigger] polled_prefix(before, mid, k + 1)
                &&& 0 <= k < mid.len()
                &&& forall|j: int| 0 <= j < k ==> !holds_ok(#[trigger] mid[j])
                &&& mid[k] == MaybeDone::<Fut>::Done(Ok(v))
                &&& after == mid.update(k, MaybeDone::<Fut>::Gone)
            },
        Poll::Ready(Err(e)) => exists|mid: Seq<MaybeDone<Fut>>|
            {
                &&& #[trigger] polled_prefix(before, mid, mid.len() as int)
                &&& forall|j: int| 0 <= j < mid.len() ==> holds_err(#[trigger] mid[j])
                &&& mid[0] == MaybeDone::<Fut>::Done(Err(e))
                &&& after == mid.update(0, MaybeDone::<Fut>::Gone)
            },
        Poll::Pending => {
            &&& polled_prefix(before, after, before.len() as int)
            &&& forall|j: int| 0 <= j < after.len() ==> !holds_ok(#[trigger] after[j])
            &&& !all_done(after)
        },
    }
}

/// One drive of a select for the first success: polls the cells in declaration
/// order. The first cell found holding a success ends the drive: its result is
/// taken and returned, and the cells after it are not polled. A cell holding a
/// failure does not end the drive. When every cell holds a failure, the failure
/// of the first declared cell is taken and returned. Otherwise `Pending`. After
/// `Ready` the select must not be driven again.
pub fn try_select_poll<T, E, Fut: Pollable<Output = Result<T, E>>>(
    cells: &mut Vec<MaybeDone<Fut>>,
    cx: &mut Context,
) -> (r: Poll<Result<T, E>>)
    requires
        old(cells)@.len() > 0,
        none_gone(old(cells)@),
    ensures
        try_select_drive(old(cells)@, final(cells)@, r),
{
    let n = cells.len();
    let mut all: bool = true;
    let mut i: usize = 0;
    while i < n
        invariant
            n == old(cells)@.len(),
            polled_prefix(old(cells)@, cells@, i as int),
            none_gone(old(cells)@),
            forall|j: int| 0 <= j < i ==> !holds_ok(#[trigger] cells@[j]),
            all == (forall|j: int| 0 <= j < i ==> #[trigger] cells@[j] is Done),
        decreases n - i,
    {
        proof {
            assert(!(old(cells)@[i as int] is Gone));
        }
        let ghost prev = cells@;
        match cells[i].poll(cx) {
            Poll::Ready(()) => {
                let succeeded = match cells[i].output() {
                    Some(res) => res.is_ok(),
                    None => false,
                };
                if succeeded {
                    let ghost mid = cells@;
                    proof {
                        assert(polled_prefix(old(cells)@, mid, i + 1));
                    }
                    match cells[i].take_output() {
                        Some(res) => {
                            proof {
                                assert(cells@ =~= mid.update(i as int, MaybeDone::<Fut>::Gone));
                                assert(forall|j: int| 0 <= j < i ==> mid[j] == prev[j]);
                            }
                            return Poll::Ready(res);
                        },
                        None => return Poll::Pending,
                    }
                }
            },
            Poll::Pending => {
                all = false;
            },
        }
        proof {
            assert(forall|j: int| 0 <= j < i ==> cells@[j] == prev[j]);
        }
        i = i + 1;
    }
    if all {
        let ghost mid = cells@;
        proof {
            assert(polled_prefix(old(cells)@, mid, mid.len() as int));
            assert forall|j: int| 0 <= j < n implies holds_err(#[trigger] mid[j]) by {
                assert(mid[j] is Done);
                assert(!holds_ok(mid[j]));
            }
            assert(holds_err(mid[0]));
        }
        match cells[0].take_output() {
            Some(res) => {
                proof {
                    assert(cells@ =~= mid.update(0, MaybeDone::<Fut>::Gone));
                }
                Poll::Ready(res)
            },
            None => Poll::Pending,
        }
    } else {
        Poll::Pending
    }
}

/// Selects the first success among fallible pollables; when all of them fail,
/// ready with the failure of the first declared one.
pub struct TrySelect<Fut: Pollable> {
    cells: Vec<MaybeDone<Fut>>,
    finished: bool,
}

impl<Fut: Pollable> TrySelect<Fut> {
    #[verifier::type_invariant]
    closed spec fn inv(self) -> bool {
        self.finished || (self.cells@.len() > 0 && none_gone(self.cells@))
    }

    /// The cells, in declaration order.
    pub closed spec fn cells(self) -> Seq<MaybeDone<Fut>> {
        self.cells@
    }

    /// Whether the combinator has answered `Ready`.
    pub closed spec fn finished(self) -> bool {
        self.finished
    }

    /// Combines `futures`, none of which has been polled yet.
    pub fn new(futures: Vec<Fut>) -> (r: Self)
        requires
            futures@.len() > 0,
        ensures
            r.cells() == running(futures@),
            !r.finished(),
    {
        let cells = maybe_done_all(futures);
        proof {
            assert(none_gone(cells@));
        }
        TrySelect { cells, finished: false }
    }
}

impl<T, E, Fut: Pollable<Output = Result<T, E>>> TrySelect<Fut> {
    /// Drives it once; it must not be driven again after answering `Ready`.
    pub fn poll_once(&mut self, cx: &mut Context) -> (r: Poll<Result<T, E>>)
        requires
            !old(self).finished(),
        ensures
            try_select_drive(old(self).cells(), final(self).cells(), r),
            final(self).finished() == r is Ready,
    {
        proof {
            use_type_invariant(&*self);
        }
        let mut cells: Vec<MaybeDone<Fut>> = Vec::new();
        self.finished = true;
        core::mem::swap(&mut cells, &mut self.cells);
        let ghost before = cells@;
        let r = try_select_poll(&mut cells, cx);
        let finished = matches!(r, Poll::Ready(_));
        proof {
            if !finished {
                lemma_polled_none_gone(before, cells@, before.len() as int);
            }
        }
        self.cells = cells;
        self.finished = finished;
        r
    }
}

impl<T, E, Fut: Pollable<Output = Result<T, E>>> Pollable for TrySelect<Fut> {
    type Output = Result<T, E>;

    /// A drive as `poll_once` makes it; once finished, `Pending` and no change.
    open spec fn polled(self, next: Self, r: Poll<Result<T, E>>) -> bool {
        if self.finished() {
            r is Pending && next == self
        } else {
            try_select_drive(self.cells(), next.cells(), r) && next.finished() == r is Ready
        }
    }

    fn poll(&mut self, cx: &mut Context) -> (r: Poll<Result<T, E>>) {
        if self.finished {
            return Poll::Pending;
        }
        self.poll_once(cx)
    }
}

} // verus!
