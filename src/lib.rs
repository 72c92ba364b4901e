//! Combinators that drive several pollable computations as one: a join of
//! all outputs, a select of the first, their fail-fast and first-success
//! variants over results, and a left-biased merge of two streams.
//!
//! Each source sits in a `MaybeDone` cell that records whether it is still
//! running, holds its output, or has handed the output out. One drive of a
//! combinator polls cells in declaration order, never polls a completed
//! source again, and breaks every tie by declaration order.

mod join;
mod join_stream;
mod maybe_done;
mod select;
mod try_join;
mod try_select;

pub use join::{
    is_drive_history, join_drive, join_poll, lemma_join_declaration_order,
    lemma_join_output_is_produced, lemma_join_ready_from_last_completion, poll_all, take_all,
    Join,
};
pub use join_stream::{end_or_wait, JoinStream, Stream};
pub use maybe_done::{
    all_done, all_gone, holds_err, holds_ok, lemma_polled_none_gone, lemma_take_twice, maybe_done,
    maybe_done_all, none_gone, outputs, polled_prefix, running, successes, Context, MaybeDone,
    Poll, Pollable,
};
pub use select::{select_drive, select_poll, Select};
pub use try_join::{try_join_drive, try_join_poll, TryJoin};
pub use try_select::{try_select_drive, try_select_poll, TrySelect};
