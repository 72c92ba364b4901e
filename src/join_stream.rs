use vstd::prelude::*;

use crate::maybe_done::{Context, Poll};

verus! {

/// An asynchronous sequence of items, driven by repeated polls.
///
/// `Ready(None)` means the sequence has ended.
pub trait Stream: Sized {
    type Item;

    /// One poll took the stream from `self` to `next` and answered `r`.
    spec fn polled_next(self, next: Self, r: Poll<Option<Self::Item>>) -> bool;

    fn poll_next(&mut self, cx: &mut Context) -> (r: Poll<Option<Self::Item>>)
        ensures
            Self::polled_next(*old(self), *final(self), r),
    ;
}

/// A stream merging two streams of one item type, preferring the left one.
///
/// Merging more than two streams nests merged streams on the left.
pub struct JoinStream<L, R> {
    left: L,
    right: R,
    left_ended: bool,
    right_ended: bool,
}

/// The merged stream's answer once the right stream has nothing to give:
/// its end when the left has ended too, else `Pending`.
pub open spec fn end_or_wait<T>(left_ended: bool) -> Poll<Option<T>> {
    if left_ended {
        Poll::Ready(None)
    } else {
        Poll::Pending
    }
}

impl<L, R> JoinStream<L, R> {
    /// The left stream.
    pub closed spec fn left(&self) -> L {
        self.left
    }

    /// The right stream.
    pub closed spec fn right(&self) -> R {
        self.right
    }

    /// Whether the left stream has reported its end.
    pub closed spec fn left_ended(&self) -> bool {
        self.left_ended
    }

    /// Whether the right stream has reported its end.
    pub closed spec fn right_ended(&self) -> bool {
        self.right_ended
    }

    /// Merges `left` and `right`, neither of which has ended.
    pub fn new(left: L, right: R) -> (r: Self)
        ensures
            r.left() == left,
            r.right() == right,
            !r.left_ended(),
            !r.right_ended(),
    {
        Self { left, right, left_ended: false, right_ended: false }
    }
}

impl<T, L: Stream<Item = T>, R: Stream<Item = T>> JoinStream<L, R> {
    /// The right stream's part of a drive from `o` to `n` that answered `r`:
    /// a right stream that has not ended is polled once and its item, if any,
    /// is the answer; its end is recorded. Without an item the answer is the
    /// merged end when both sides have ended, else `Pending`.
    pub open spec fn right_step(o: Self, n: Self, r: Poll<Option<T>>) -> bool {
        if o.right_ended() {
            &&& n.right() == o.right()
            &&& n.right_ended()
            &&& r == end_or_wait::<T>(n.left_ended())
        } else {
            exists|r2: R, res: Poll<Option<T>>|
                {
                    &&& #[trigger] o.right().polled_next(r2, res)
                    &&& n.right() == r2
                    &&& match res {
                        Poll::Ready(Some(x)) => r == Poll::Ready(Some(x)) && !n.right_ended(),
                        Poll::Ready(None) => n.right_ended() && r == end_or_wait::<T>(
                            n.left_ended(),
                        ),
                        Poll::Pending => !n.right_ended() && r == Poll::<Option<T>>::Pending,
                    }
                }
        }
    }

    /// A drive of the merged stream took it from `o` to `n` and answered `r`,
    /// with `woke` the request to be polled again afterwards. A left stream
    /// that has not ended is polled first: its item is the answer at once,
    /// with `woke` set and the right stream untouched. Otherwise (the left has
    /// ended, ends now, or has nothing yet) the right stream's part decides.
    pub open spec fn merge_drive(o: Self, n: Self, r: Poll<Option<T>>, woke: bool) -> bool {
        if o.left_ended() {
            &&& n.left() == o.left()
            &&& n.left_ended()
            &&& Self::right_step(o, n, r)
        } else {
            exists|l2: L, res: Poll<Option<T>>|
                {
                    &&& #[trigger] o.left().polled_next(l2, res)
                    &&& n.left() == l2
                    &&& match res {
                        Poll::Ready(Some(x)) => {
                            &&& r == Poll::Ready(Some(x))
                            &&& woke
                            &&& !n.left_ended()
                            &&& n.right() == o.right()
                            &&& n.right_ended() == o.right_ended()
                        },
                        Poll::Ready(None) => n.left_ended() && Self::right_step(o, n, r),
                        Poll::Pending => !n.left_ended() && Self::right_step(o, n, r),
                    }
                }
        }
    }

    /// Polls the right stream, unless it has ended, and answers as
    /// `right_step` says.
    fn poll_right(&mut self, cx: &mut Context) -> (r: Poll<Option<T>>)
        ensures
            Self::right_step(*old(self), *final(self), r),
            final(self).left() == old(self).left(),
            final(self).left_ended() == old(self).left_ended(),
    {
        if !self.right_ended {
            let res = self.right.poll_next(cx);
            proof {
                assert(old(self).right().polled_next(self.right, res));
            }
            match res {
                Poll::Ready(Some(item)) => {
                    return Poll::Ready(Some(item));
                },
                Poll::Ready(None) => {
                    self.right_ended = true;
                },
                Poll::Pending => {
                    return Poll::Pending;
                },
            }
        }
        if self.left_ended {
            Poll::Ready(None)
        } else {
            Poll::Pending
        }
    }

    /// One drive of the merged stream, as `merge_drive` says: an item from the
    /// left is handed on at once, with a request to be polled again so that the
    /// right stream is not starved; otherwise the right stream answers. The
    /// merged stream ends only once both streams have ended.
    pub fn poll_merged(&mut self, cx: &mut Context) -> (r: Poll<Option<T>>)
        ensures
            Self::merge_drive(*old(self), *final(self), r, final(cx).wake_again),
    {
        if !self.left_ended {
            let res = self.left.poll_next(cx);
            proof {
                assert(old(self).left().polled_next(self.left, res));
            }
            match res {
                Poll::Ready(Some(item)) => {
                    cx.wake_again = true;
                    return Poll::Ready(Some(item));
                },
                Poll::Ready(None) => {
                    self.left_ended = true;
                },
                Poll::Pending => {},
            }
            let ghost before_right = *self;
            let r = self.poll_right(cx);
            proof {
                assert(Self::right_step(before_right, *self, r));
                assert(before_right.right() == old(self).right());
                assert(before_right.right_ended() == old(self).right_ended());
            }
            return r;
        }
        self.poll_right(cx)
    }
}

impl<T, L: Stream<Item = T>, R: Stream<Item = T>> Stream for JoinStream<L, R> {
    type Item = T;

    /// A drive as `poll_merged` makes it, whatever it asked of the driver.
    open spec fn polled_next(self, next: Self, r: Poll<Option<T>>) -> bool {
        exists|woke: bool| #[trigger] Self::merge_drive(self, next, r, woke)
    }

    fn poll_next(&mut self, cx: &mut Context) -> (r: Poll<Option<T>>) {
        self.poll_merged(cx)
    }
}

} // verus!
