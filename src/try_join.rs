use vstd::prelude::*;

use crate::maybe_done::{
    all_done, all_gone, holds_err, holds_ok, lemma_polled_none_gone, maybe_done_all, none_gone,
    polled_prefix, running, successes, Context, MaybeDone, Poll, Pollable,
};

verus! {

/// Takes every success value, in declaration order.
fn take_successes<T, E, Fut: Pollable<Output = Result<T, E>>>(cells: &mut Vec<MaybeDone<Fut>>) -> (r: Vec<T>)
    requires
        forall|j: int| 0 <= j < old(cells)@.len() ==> holds_ok(#[trigger] old(cells)@[j]),
    ensures
        r@ == successes(old(cells)@),
        final(cells)@.len() == old(cells)@.len(),
        all_gone(final(cells)@),
{
    let n = cells.len();
    let mut out: Vec<T> = Vec::new();
    let mut i: usize = 0;
    while i < n
        invariant
            n == old(cells)@.len(),
            cells@.len() == n,
            forall|j: int| 0 <= j < n ==> holds_ok(#[trigger] old(cells)@[j]),
            0 <= i <= n,
            out@ == successes(old(cells)@).subrange(0, i as int),
            forall|j: int| 0 <= j < i ==> #[trigger] cells@[j] is Gone,
            forall|j: int| i <= j < n ==> #[trigger] cells@[j] == old(cells)@[j],
        decreases n - i,
    {
        proof {
            assert(holds_ok(old(cells)@[i as int]));
        }
        match cells[i].take_output() {
            Some(Ok(v)) => out.push(v),
            _ => {},
        }
        proof {
            assert(out@ =~= successes(old(cells)@).subrange(0, i + 1));
        }
        i = i + 1;
    }
    proof {
        assert(out@ =~= successes(old(cells)@));
    }
    out
}

/// A drive of a fail-fast join took the cells from `before` to `after` and
/// answered `r`: the cells were polled in order up to the first holding a
/// failure, which was taken and returned; with none, every cell was polled, and
/// when all held successes they were taken and returned in order.
pub open spec fn try_join_drive<T, E, Fut: Pollable<Output = Result<T, E>>>(
    before: Seq<MaybeDone<Fut>>,
    after: Seq<MaybeDone<Fut>>,
    r: Poll<Result<Vec<T>, E>>,
) -> bool {
    match r {
        Poll::Ready(Err(e)) => exists|k: int, mid: Seq<MaybeDone<Fut>>|
            {
                &&& #[trigger] polled_prefix(before, mid, k + 1)
                &&& 0 <= k < mid.len()
                &&& forall|j: int| 0 <= j < k ==> !holds_err(#[trigger] mid[j])
                &&& mid[k] == MaybeDone::<Fut>::Done(Err(e))
                &&& after == mid.update(k, MaybeDone::<Fut>::Gone)
            },
        Poll::Ready(Ok(vs)) => exists|mid: Seq<MaybeDone<Fut>>|
            {
                &&& #[trigger] polled_prefix(before, mid, mid.len() as int)
                &&& forall|j: int| 0 <= j < mid.len() ==> holds_ok(#[trigger] mid[j])
                &&& vs@ == successes(mid)
                &&& after.len() == mid.len()
                &&& all_gone(after)
            },
        Poll::Pending => {
            &&& polled_prefix(before, after, before.len() as int)
            &&& forall|j: int| 0 <= j < after.len() ==> !holds_err(#[trigger] after[j])
            &&& !all_done(after)
        },
    }
}

/// One drive of a fail-fast join: polls the cells in declaration order. The
/// first cell found holding a failure ends the drive at once: its failure is
/// taken and returned, and the cells after it are not polled. When every cell
/// holds a success, all of them are taken and returned in declaration order.
/// Otherwise `Pending`. After `Ready` the join must not be driven again.
pub fn try_join_poll<T, E, Fut: Pollable<Output = Result<T, E>>>(
    cells: &mut Vec<MaybeDone<Fut>>,
    cx: &mut Context,
) -> (r: Poll<Result<Vec<T>, E>>)
    requires
        none_gone(old(cells)@),
    ensures
        try_join_drive(old(cells)@, final(cells)@, r),
{
    let n = cells.len();
    let mut all: bool = true;
    let mut i: usize = 0;
    while i < n
        invariant
            n == old(cells)@.len(),
            polled_prefix(old(cells)@, cells@, i as int),
            none_gone(old(cells)@),
            forall|j: int| 0 <= j < i ==> !holds_err(#[trigger] cells@[j]),
            all == (forall|j: int| 0 <= j < i ==> #[trigger] cells@[j] is Done),
        decreases n - i,
    {
        proof {
            assert(!(old(cells)@[i as int] is Gone));
        }
        let ghost prev = cells@;
        match cells[i].poll(cx) {
            Poll::Ready(()) => {
                let failed = match cells[i].output() {
                    Some(res) => res.is_err(),
                    None => false,
                };
                if failed {
                    let ghost mid = cells@;
                    proof {
                        assert(polled_prefix(old(cells)@, mid, i + 1));
                    }
                    match cells[i].take_output() {
                        Some(Err(e)) => {
                            proof {
                                assert(cells@ =~= mid.update(i as int, MaybeDone::<Fut>::Gone));
                                assert(forall|j: int| 0 <= j < i ==> mid[j] == prev[j]);
                            }
                            return Poll::Ready(Err(e));
                        },
                        _ => return Poll::Pending,
                    }
                }
            },
            Poll::Pending => {
                all = false;
            },
        }
        proof {
            assert(forall|j: int| 0 <= j < i ==> cells@[j] == prev[j]);
        }
        i = i + 1;
    }
    if all {
        let ghost mid = cells@;
        proof {
            assert forall|j: int| 0 <= j < n implies holds_ok(#[trigger] mid[j]) by {
                assert(mid[j] is Done);
                assert(!holds_err(mid[j]));
            }
        }
        let vs = take_successes(cells);
        proof {
            assert(polled_prefix(old(cells)@, mid, mid.len() as int));
        }
        Poll::Ready(Ok(vs))
    } else {
        Poll::Pending
    }
}

/// Joins fallible pollables: ready with all the success values in
/// declaration order, or with the first failure found.
pub struct TryJoin<Fut: Pollable> {
    cells: Vec<MaybeDone<Fut>>,
    finished: bool,
}

impl<Fut: Pollable> TryJoin<Fut> {
    #[verifier::type_invariant]
    closed spec fn inv(self) -> bool {
        self.finished || (none_gone(self.cells@))
    }

    /// The cells, in declaration order.
    pub closed spec fn cells(self) -> Seq<MaybeDone<Fut>> {
        self.cells@
    }

    /// Whether the combinator has answered `Ready`.
    pub closed spec fn finished(self) -> bool {
        self.finished
    }

    /// Combines `futures`, none of which has been polled yet.
    pub fn new(futures: Vec<Fut>) -> (r: Self)
        ensures
            r.cells() == running(futures@),
            !r.finished(),
    {
        let cells = maybe_done_all(futures);
        proof {
            assert(none_gone(cells@));
        }
        TryJoin { cells, finished: false }
    }
}

impl<T, E, Fut: Pollable<Output = Result<T, E>>> TryJoin<Fut> {
    /// Drives it once; it must not be driven again after answering `Ready`.
    pub fn poll_once(&mut self, cx: &mut Context) -> (r: Poll<Result<Vec<T>, E>>)
        requires
            !old(self).finished(),
        ensures
            try_join_drive(old(self).cells(), final(self).cells(), r),
            final(self).finished() == r is Ready,
    {
        proof {
            use_type_invariant(&*self);
        }
        let mut cells: Vec<MaybeDone<Fut>> = Vec::new();
        core::mem::swap(&mut cells, &mut self.cells);
        let ghost before = cells@;
        let r = try_join_poll(&mut cells, cx);
        let finished = matches!(r, Poll::Ready(_));
        proof {
            if !finished {
                lemma_polled_none_gone(before, cells@, before.len() as int);
            }
        }
        self.finished = finished;
        self.cells = cells;
        r
    }
}

impl<T, E, Fut: Pollable<Output = Result<T, E>>> Pollable for TryJoin<Fut> {
    type Output = Result<Vec<T>, E>;

    /// A drive as `poll_once` makes it; once finished, `Pending` and no change.
    open spec fn polled(self, next: Self, r: Poll<Result<Vec<T>, E>>) -> bool {
        if self.finished() {
            r is Pending && next == self
        } else {
            try_join_drive(self.cells(), next.cells(), r) && next.finished() == r is Ready
        }
    }

    fn poll(&mut self, cx: &mut Context) -> (r: Poll<Result<Vec<T>, E>>) {
        if self.finished {
            return Poll::Pending;
        }
        self.poll_once(cx)
    }
}

} // verus!
