use vstd::prelude::*;

verus! {

/// Outcome of polling a computation once.
pub enum Poll<T> {
    /// The computation has completed with this value.
    Ready(T),
    /// The computation has not completed yet.
    Pending,
}

/// What a poll may ask of its driver besides returning a value.
pub struct Context {
    /// Set when the driver should poll again without waiting for a wake-up.
    pub wake_again: bool,
}

/// A computation that is driven forward by repeated polls.
///
/// Once a poll has returned `Ready`, the computation must not be polled again.
pub trait Pollable: Sized {
    type Output;

    /// One poll took the pollable from `self` to `next` and answered `r`.
    spec fn polled(self, next: Self, r: Poll<Self::Output>) -> bool;

    fn poll(&mut self, cx: &mut Context) -> (r: Poll<Self::Output>)
        ensures
            Self::polled(*old(self), *final(self), r),
    ;
}

/// A pollable together with its completion status.
///
/// The status only moves forward: `Future`, then `Done`, then `Gone`.
pub enum MaybeDone<Fut: Pollable> {
    /// Not yet completed.
    Future(Fut),
    /// Completed; the output has not been taken yet.
    Done(Fut::Output),
    /// The output has been taken.
    Gone,
}

/// Wraps a pollable that has not completed yet.
pub fn maybe_done<Fut: Pollable>(future: Fut) -> (r: MaybeDone<Fut>)
    ensures
        r == MaybeDone::Future(future),
{
    MaybeDone::Future(future)
}

impl<Fut: Pollable> MaybeDone<Fut> {
    /// The cell a running pollable leaves after a poll that took it to `f` and
    /// answered `res`: `Done` with the value on `Ready`, still running on
    /// `Pending`.
    pub open spec fn settled(f: Fut, res: Poll<Fut::Output>) -> Self {
        match res {
            Poll::Ready(v) => MaybeDone::Done(v),
            Poll::Pending => MaybeDone::Future(f),
        }
    }

    /// One poll of the cell: a running cell polls its pollable once and keeps
    /// what that poll answered; a completed cell stays exactly as it was,
    /// without polling.
    pub open spec fn advances_to(self, next: Self) -> bool {
        match self {
            MaybeDone::Future(f) => exists|f2: Fut, res: Poll<Fut::Output>|
                #[trigger] f.polled(f2, res) && next == Self::settled(f2, res),
            MaybeDone::Done(_) => next == self,
            MaybeDone::Gone => false,
        }
    }

    /// The output that taking would hand out, and the state left behind.
    pub open spec fn taken(self) -> (Option<Fut::Output>, Self) {
        match self {
            MaybeDone::Done(v) => (Some(v), MaybeDone::Gone),
            _ => (None, self),
        }
    }

    /// Creates a cell around a pollable that has not completed yet.
    pub fn new(future: Fut) -> (r: Self)
        ensures
            r == MaybeDone::Future(future),
    {
        MaybeDone::Future(future)
    }

    /// The output, if the pollable has completed and the output is still held.
    pub fn output(&self) -> (r: Option<&Fut::Output>)
        ensures
            r is Some <==> *self is Done,
            r is Some ==> *r->0 == self->Done_0,
    {
        match self {
            MaybeDone::Done(res) => Some(res),
            _ => None,
        }
    }

    /// Mutable access to the output, if the pollable has completed and the
    /// output is still held.
    pub fn output_mut(&mut self) -> (r: Option<&mut Fut::Output>)
        ensures
            r is Some <==> *old(self) is Done,
            r is Some ==> *r->0 == old(self)->Done_0 && *final(self) == MaybeDone::<Fut>::Done(
                *final(r->0),
            ),
            r is None ==> *final(self) == *old(self),
    {
        match self {
            MaybeDone::Done(res) => Some(res),
            _ => None,
        }
    }

    /// Moves the output out, leaving `Gone` behind; `None`, with no change, when
    /// there is no output to take.
    pub fn take_output(&mut self) -> (r: Option<Fut::Output>)
        ensures
            (r, *final(self)) == old(self).taken(),
    {
        match self {
            MaybeDone::Done(_) => {},
            _ => return None,
        }
        let mut this = MaybeDone::Gone;
        core::mem::swap(self, &mut this);
        match this {
            MaybeDone::Done(output) => Some(output),
            _ => None,
        }
    }

    /// Drives the pollable once if it is still running; `Ready` when the cell
    /// holds an output afterwards. A completed cell is not polled again.
    pub fn poll(&mut self, cx: &mut Context) -> (r: Poll<()>)
        requires
            !(*old(self) is Gone),
        ensures
            old(self).advances_to(*final(self)),
            r is Ready <==> *final(self) is Done,
    {
        let res = match self {
            MaybeDone::Future(f) => f.poll(cx),
            MaybeDone::Done(_) => return Poll::Ready(()),
            MaybeDone::Gone => return Poll::Pending,
        };
        match res {
            Poll::Ready(v) => {
                *self = MaybeDone::Done(v);
                Poll::Ready(())
            },
            Poll::Pending => Poll::Pending,
        }
    }
}

/// A running cell around each pollable, in the same order.
pub open spec fn running<Fut: Pollable>(futures: Seq<Fut>) -> Seq<MaybeDone<Fut>> {
    futures.map_values(|f: Fut| MaybeDone::<Fut>::Future(f))
}

/// Wraps each pollable in a running cell, keeping their order.
pub fn maybe_done_all<Fut: Pollable>(futures: Vec<Fut>) -> (r: Vec<MaybeDone<Fut>>)
    ensures
        r@ == running(futures@),
{
    let ghost orig = futures@;
    let mut rest = futures;
    let mut reversed: Vec<Fut> = Vec::new();
    while rest.len() > 0
        invariant
            rest@.len() + reversed@.len() == orig.len(),
            rest@ == orig.subrange(0, rest@.len() as int),
            forall|j: int|
                0 <= j < reversed@.len() ==> #[trigger] reversed@[j] == orig[orig.len() - 1 - j],
        decreases rest@.len(),
    {
        match rest.pop() {
            Some(f) => reversed.push(f),
            None => {},
        }
        proof {
            assert(rest@ =~= orig.subrange(0, rest@.len() as int));
        }
    }
    let mut cells: Vec<MaybeDone<Fut>> = Vec::new();
    while reversed.len() > 0
        invariant
            reversed@.len() + cells@.len() == orig.len(),
            forall|j: int|
                0 <= j < reversed@.len() ==> #[trigger] reversed@[j] == orig[orig.len() - 1 - j],
            cells@ =~= running(orig.subrange(0, cells@.len() as int)),
        decreases reversed@.len(),
    {
        let ghost k = cells@.len();
        match reversed.pop() {
            Some(f) => cells.push(MaybeDone::Future(f)),
            None => {},
        }
        proof {
            assert(cells@ =~= running(orig.subrange(0, cells@.len() as int)));
        }
    }
    proof {
        assert(orig.subrange(0, orig.len() as int) =~= orig);
    }
    cells
}

/// `next` is `cells` after one poll of each of the first `k` cells, the rest
/// left untouched.
pub open spec fn polled_prefix<Fut: Pollable>(
    cells: Seq<MaybeDone<Fut>>,
    next: Seq<MaybeDone<Fut>>,
    k: int,
) -> bool {
    &&& next.len() == cells.len()
    &&& 0 <= k <= cells.len()
    &&& forall|i: int| 0 <= i < k ==> #[trigger] cells[i].advances_to(next[i])
    &&& forall|i: int| k <= i < cells.len() ==> #[trigger] next[i] == cells[i]
}

/// No cell has had its output taken.
pub open spec fn none_gone<Fut: Pollable>(cells: Seq<MaybeDone<Fut>>) -> bool {
    forall|i: int| 0 <= i < cells.len() ==> !(#[trigger] cells[i] is Gone)
}

/// Every cell holds its output.
pub open spec fn all_done<Fut: Pollable>(cells: Seq<MaybeDone<Fut>>) -> bool {
    forall|i: int| 0 <= i < cells.len() ==> #[trigger] cells[i] is Done
}

/// Every cell has had its output taken.
pub open spec fn all_gone<Fut: Pollable>(cells: Seq<MaybeDone<Fut>>) -> bool {
    forall|i: int| 0 <= i < cells.len() ==> #[trigger] cells[i] is Gone
}

/// The outputs the cells hold, in declaration order.
pub open spec fn outputs<Fut: Pollable>(cells: Seq<MaybeDone<Fut>>) -> Seq<Fut::Output> {
    Seq::new(cells.len(), |i: int| cells[i]->Done_0)
}

/// The cell holds a failure.
pub open spec fn holds_err<T, E, Fut: Pollable<Output = Result<T, E>>>(c: MaybeDone<Fut>) -> bool {
    c is Done && c->Done_0 is Err
}

/// The cell holds a success.
pub open spec fn holds_ok<T, E, Fut: Pollable<Output = Result<T, E>>>(c: MaybeDone<Fut>) -> bool {
    c is Done && c->Done_0 is Ok
}

/// The success values the cells hold, in declaration order.
pub open spec fn successes<T, E, Fut: Pollable<Output = Result<T, E>>>(
    cells: Seq<MaybeDone<Fut>>,
) -> Seq<T> {
    Seq::new(cells.len(), |i: int| cells[i]->Done_0->Ok_0)
}

/// Polling never takes an output.
pub proof fn lemma_polled_none_gone<Fut: Pollable>(
    before: Seq<MaybeDone<Fut>>,
    after: Seq<MaybeDone<Fut>>,
    k: int,
)
    requires
        none_gone(before),
        polled_prefix(before, after, k),
    ensures
        none_gone(after),
{
    assert forall|i: int| 0 <= i < after.len() implies !(#[trigger] after[i] is Gone) by {
        assert(!(before[i] is Gone));
        if i < k {
            assert(before[i].advances_to(after[i]));
        }
    }
}

/// Taking the output twice hands it out once: the second take finds nothing
/// and leaves the cell `Gone`.
pub proof fn lemma_take_twice<Fut: Pollable>(c: MaybeDone<Fut>)
    ensures
        c.taken().1.taken().0 is None,
        c is Done ==> c.taken().1.taken().1 is Gone,
{
}

} // verus!
