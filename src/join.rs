use vstd::prelude::*;

use crate::maybe_done::{
    all_done, all_gone, lemma_polled_none_gone, maybe_done_all, none_gone, outputs, polled_prefix, running, Context,
    MaybeDone, Poll, Pollable,
};

verus! {

/// Polls every cell once, in declaration order, whatever the others did;
/// returns whether every cell holds its output afterwards.
pub fn poll_all<Fut: Pollable>(cells: &mut Vec<MaybeDone<Fut>>, cx: &mut Context) -> (r: bool)
    requires
        none_gone(old(cells)@),
    ensures
        polled_prefix(old(cells)@, final(cells)@, old(cells)@.len() as int),
        r == all_done(final(cells)@),
{
    let n = cells.len();
    let mut all: bool = true;
    let mut i: usize = 0;
    while i < n
        invariant
            n == old(cells)@.len(),
            polled_prefix(old(cells)@, cells@, i as int),
            none_gone(old(cells)@),
            all == (forall|j: int| 0 <= j < i ==> #[trigger] cells@[j] is Done),
        decreases n - i,
    {
        proof {
            assert(!(old(cells)@[i as int] is Gone));
        }
        let ghost prev = cells@;
        let ready = match cells[i].poll(cx) {
            Poll::Ready(()) => true,
            Poll::Pending => false,
        };
        all = all && ready;
        proof {
            assert(forall|j: int| 0 <= j < i ==> cells@[j] == prev[j]);
            assert(ready == cells@[i as int] is Done);
        }
        i = i + 1;
    }
    all
}

/// Takes every output, in declaration order.
pub fn take_all<Fut: Pollable>(cells: &mut Vec<MaybeDone<Fut>>) -> (r: Vec<Fut::Output>)
    requires
        all_done(old(cells)@),
    ensures
        r@ == outputs(old(cells)@),
        final(cells)@.len() == old(cells)@.len(),
        all_gone(final(cells)@),
{
    let n = cells.len();
    let mut out: Vec<Fut::Output> = Vec::new();
    let mut i: usize = 0;
    while i < n
        invariant
            n == old(cells)@.len(),
            cells@.len() == n,
            all_done(old(cells)@),
            0 <= i <= n,
            out@ == outputs(old(cells)@).subrange(0, i as int),
            forall|j: int| 0 <= j < i ==> #[trigger] cells@[j] is Gone,
            forall|j: int| i <= j < n ==> #[trigger] cells@[j] == old(cells)@[j],
        decreases n - i,
    {
        proof {
            assert(old(cells)@[i as int] is Done);
        }
        match cells[i].take_output() {
            Some(v) => out.push(v),
            None => {},
        }
        proof {
            assert(out@ =~= outputs(old(cells)@).subrange(0, i + 1));
        }
        i = i + 1;
    }
    proof {
        assert(out@ =~= outputs(old(cells)@));
    }
    out
}

/// A drive of a join took the cells from `before` to `after` and answered `r`:
/// every cell was polled once, giving `mid`; the join is ready exactly when all
/// of `mid` hold their outputs, and then hands them out in declaration order.
pub open spec fn join_drive<Fut: Pollable>(
    before: Seq<MaybeDone<Fut>>,
    after: Seq<MaybeDone<Fut>>,
    r: Poll<Vec<Fut::Output>>,
) -> bool {
    exists|mid: Seq<MaybeDone<Fut>>|
        {
            &&& #[trigger] polled_prefix(before, mid, before.len() as int)
            &&& match r {
                Poll::Ready(vs) => {
                    &&& all_done(mid)
                    &&& vs@ == outputs(mid)
                    &&& after.len() == mid.len()
                    &&& all_gone(after)
                },
                Poll::Pending => !all_done(mid) && after == mid,
            }
        }
}

/// One drive of a join: polls every cell, then, when all of them hold their
/// outputs, takes them all in declaration order.
///
/// `Pending` leaves the cells as polled; `Ready` leaves every cell `Gone`, so
/// the join must not be driven again.
pub fn join_poll<Fut: Pollable>(cells: &mut Vec<MaybeDone<Fut>>, cx: &mut Context) -> (r: Poll<
    Vec<Fut::Output>,
>)
    requires
        none_gone(old(cells)@),
    ensures
        join_drive(old(cells)@, final(cells)@, r),
{
    let all = poll_all(cells, cx);
    let ghost mid = cells@;
    proof {
        assert(polled_prefix(old(cells)@, mid, old(cells)@.len() as int));
    }
    if all {
        Poll::Ready(take_all(cells))
    } else {
        Poll::Pending
    }
}

/// Joins pollables: ready, once, with the outputs of all of them in
/// declaration order.
pub struct Join<Fut: Pollable> {
    cells: Vec<MaybeDone<Fut>>,
    finished: bool,
}

impl<Fut: Pollable> Join<Fut> {
    #[verifier::type_invariant]
    closed spec fn inv(self) -> bool {
        self.finished || none_gone(self.cells@)
    }

    /// The cells, in declaration order.
    pub closed spec fn cells(self) -> Seq<MaybeDone<Fut>> {
        self.cells@
    }

    /// Whether the join has answered `Ready`.
    pub closed spec fn finished(self) -> bool {
        self.finished
    }

    /// Joins `futures`, none of which has been polled yet.
    pub fn new(futures: Vec<Fut>) -> (r: Self)
        ensures
            r.cells() == running(futures@),
            !r.finished(),
    {
        let cells = maybe_done_all(futures);
        proof {
            assert(none_gone(cells@));
        }
        Join { cells, finished: false }
    }

    /// Drives it once; it must not be driven again after answering `Ready`.
    pub fn poll_once(&mut self, cx: &mut Context) -> (r: Poll<Vec<Fut::Output>>)
        requires
            !old(self).finished(),
        ensures
            join_drive(old(self).cells(), final(self).cells(), r),
            final(self).finished() == r is Ready,
    {
        proof {
            use_type_invariant(&*self);
        }
        let mut cells: Vec<MaybeDone<Fut>> = Vec::new();
        core::mem::swap(&mut cells, &mut self.cells);
        let ghost before = cells@;
        let r = join_poll(&mut cells, cx);
        let finished = matches!(r, Poll::Ready(_));
        proof {
            if !finished {
                let mid = choose|mid: Seq<MaybeDone<Fut>>|
                    #[trigger] polled_prefix(before, mid, before.len() as int) && !all_done(mid)
                        && cells@ == mid;
                lemma_polled_none_gone(before, mid, before.len() as int);
            }
        }
        self.finished = finished;
        self.cells = cells;
        r
    }
}

impl<Fut: Pollable> Pollable for Join<Fut> {
    type Output = Vec<Fut::Output>;

    /// A drive as `poll_once` makes it; once finished, `Pending` and no change.
    open spec fn polled(self, next: Self, r: Poll<Vec<Fut::Output>>) -> bool {
        if self.finished() {
            r is Pending && next == self
        } else {
            join_drive(self.cells(), next.cells(), r) && next.finished() == r is Ready
        }
    }

    fn poll(&mut self, cx: &mut Context) -> (r: Poll<Vec<Fut::Output>>) {
        if self.finished {
            return Poll::Pending;
        }
        self.poll_once(cx)
    }
}

/// Successive states of the cells of a join, each one reached from the one
/// before by a drive that polled every cell once.
pub open spec fn is_drive_history<Fut: Pollable>(h: Seq<Seq<MaybeDone<Fut>>>) -> bool {
    forall|j: int|
        0 <= j < h.len() - 1 ==> #[trigger] polled_prefix(h[j], h[j + 1], h[j].len() as int)
}

/// Once a cell has completed, later drives leave it exactly as it is.
proof fn lemma_done_stays<Fut: Pollable>(h: Seq<Seq<MaybeDone<Fut>>>, i: int, j: int, k: int)
    requires
        is_drive_history(h),
        0 <= j <= k < h.len(),
        0 <= i < h[j].len(),
        h[j][i] is Done,
    ensures
        h[k].len() == h[j].len(),
        h[k][i] == h[j][i],
    decreases k - j,
{
    if k > j {
        lemma_done_stays(h, i, j, k - 1);
        let p = k - 1;
        assert(polled_prefix(h[p], h[p + 1], h[p].len() as int));
        assert(h[k - 1][i].advances_to(h[k][i]));
    }
}

/// A join hands out its outputs in declaration order, whatever order the
/// cells completed in: the output at position `i` is the value that cell `i`
/// completed with, on whichever drive that was.
pub proof fn lemma_join_declaration_order<Fut: Pollable>(
    h: Seq<Seq<MaybeDone<Fut>>>,
    i: int,
    j: int,
)
    requires
        is_drive_history(h),
        0 <= j < h.len(),
        0 <= i < h[j].len(),
        h[j][i] is Done,
        all_done(h.last()),
    ensures
        outputs(h.last()).len() == h[j].len(),
        outputs(h.last())[i] == h[j][i]->Done_0,
{
    lemma_done_stays(h, i, j, h.len() - 1);
}

/// The output a join hands out at position `i` is exactly the value that
/// cell `i`'s pollable answered `Ready` with, on the drive where it completed.
pub proof fn lemma_join_output_is_produced<Fut: Pollable>(
    h: Seq<Seq<MaybeDone<Fut>>>,
    i: int,
    j: int,
)
    requires
        is_drive_history(h),
        0 <= j < h.len() - 1,
        0 <= i < h[j].len(),
        h[j][i] is Future,
        h[j + 1][i] is Done,
        all_done(h.last()),
    ensures
        outputs(h.last()).len() == h[j].len(),
        exists|f2: Fut|
            #[trigger] h[j][i]->Future_0.polled(f2, Poll::Ready(outputs(h.last())[i])),
{
    assert(polled_prefix(h[j], h[j + 1], h[j].len() as int));
    assert(h[j][i].advances_to(h[j + 1][i]));
    let f = h[j][i]->Future_0;
    let (f2, res) = choose|f2: Fut, res: Poll<Fut::Output>|
        #[trigger] f.polled(f2, res) && h[j + 1][i] == MaybeDone::<Fut>::settled(f2, res);
    lemma_join_declaration_order(h, i, j + 1);
    lemma_done_stays_len(h, j, j + 1);
    assert(f.polled(f2, Poll::Ready(outputs(h.last())[i])));
}

/// Once every cell of a join has completed, every later drive finds them all
/// completed: a join is pending on each drive before the one on which its last
/// cell completes, and ready from that drive on. (A ready drive takes every
/// output, so a join with cells is not driven after it.)
pub proof fn lemma_join_ready_from_last_completion<Fut: Pollable>(
    h: Seq<Seq<MaybeDone<Fut>>>,
    a: int,
    b: int,
)
    requires
        is_drive_history(h),
        0 <= a <= b < h.len(),
        all_done(h[a]),
    ensures
        all_done(h[b]),
        outputs(h[b]) == outputs(h[a]),
{
    lemma_done_stays_len(h, a, b);
    assert forall|i: int| 0 <= i < h[b].len() implies #[trigger] h[b][i] is Done
        && h[b][i] == h[a][i] by {
        lemma_done_stays(h, i, a, b);
    }
    assert(outputs(h[b]) =~= outputs(h[a]));
}

/// Drives keep the number of cells.
proof fn lemma_done_stays_len<Fut: Pollable>(h: Seq<Seq<MaybeDone<Fut>>>, a: int, b: int)
    requires
        is_drive_history(h),
        0 <= a <= b < h.len(),
    ensures
        h[b].len() == h[a].len(),
    decreases b - a,
{
    if b > a {
        lemma_done_stays_len(h, a, b - 1);
        let p = b - 1;
        assert(polled_prefix(h[p], h[p + 1], h[p].len() as int));
    }
}

} // verus!
