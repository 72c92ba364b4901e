use async_macros::{
    join_poll, maybe_done, maybe_done_all, poll_all, select_poll, take_all, try_join_poll,
    try_select_poll, Context, Join, MaybeDone, Poll, Pollable, Select, TryJoin, TrySelect,
};

/// A pollable that is pending for a fixed number of polls, then ready.
struct After<T: Clone> {
    pending_polls: usize,
    value: T,
    polls: usize,
}

impl<T: Clone> Pollable for After<T> {
    type Output = T;

    // The relation a poll meets only matters to the verifier, which does not
    // see this file.
    fn polled(self, _next: Self, _r: Poll<T>) -> bool {
        true
    }

    fn poll(&mut self, _cx: &mut Context) -> Poll<T> {
        self.polls += 1;
        assert!(self.polls <= self.pending_polls + 1, "polled after completion");
        if self.polls > self.pending_polls {
            Poll::Ready(self.value.clone())
        } else {
            Poll::Pending
        }
    }
}

fn after<T: Clone>(pending_polls: usize, value: T) -> MaybeDone<After<T>> {
    maybe_done(After { pending_polls, value, polls: 0 })
}

fn never<T: Clone>(value: T) -> MaybeDone<After<T>> {
    after(usize::MAX - 1, value)
}

fn cx() -> Context {
    Context { wake_again: false }
}

fn polls_of<T: Clone>(cell: &MaybeDone<After<T>>) -> Option<usize> {
    match cell {
        MaybeDone::Future(f) => Some(f.polls),
        _ => None,
    }
}

#[test]
fn join_keeps_declaration_order() {
    // The second source completes first; the output order does not change.
    let mut cells = vec![after(2, 10u32), after(0, 20u32), after(1, 30u32)];
    let mut cx = cx();
    assert!(matches!(join_poll(&mut cells, &mut cx), Poll::Pending));
    assert!(matches!(join_poll(&mut cells, &mut cx), Poll::Pending));
    match join_poll(&mut cells, &mut cx) {
        Poll::Ready(vs) => assert_eq!(vs, vec![10, 20, 30]),
        Poll::Pending => panic!("join should be ready"),
    }
    assert!(cells.iter().all(|c| matches!(c, MaybeDone::Gone)));
}

#[test]
fn join_ready_only_on_last_completion() {
    let mut cells = vec![after(0, 1u8), after(3, 2u8)];
    let mut cx = cx();
    for _ in 0..3 {
        assert!(matches!(join_poll(&mut cells, &mut cx), Poll::Pending));
        assert!(matches!(cells[0], MaybeDone::Done(1)));
    }
    match join_poll(&mut cells, &mut cx) {
        Poll::Ready(vs) => assert_eq!(vs, vec![1, 2]),
        Poll::Pending => panic!("join should be ready"),
    }
}

#[test]
fn join_of_no_cells_is_ready_empty() {
    let mut cells: Vec<MaybeDone<After<u8>>> = Vec::new();
    match join_poll(&mut cells, &mut cx()) {
        Poll::Ready(vs) => assert!(vs.is_empty()),
        Poll::Pending => panic!("empty join should be ready"),
    }
}

#[test]
fn try_join_fails_fast_in_declaration_order() {
    let mut cells = vec![
        after(0, Ok::<u32, &str>(1)),
        after(0, Err("second")),
        after(0, Ok(3)),
    ];
    match try_join_poll(&mut cells, &mut cx()) {
        Poll::Ready(Err(e)) => assert_eq!(e, "second"),
        _ => panic!("try_join should fail"),
    }
    // The third cell was not polled on that drive.
    assert_eq!(polls_of(&cells[2]), Some(0));
    assert!(matches!(cells[1], MaybeDone::Gone));
}

#[test]
fn try_join_first_declared_failure_wins() {
    let mut cells = vec![
        after(1, Err::<u32, &str>("late")),
        after(0, Ok(2)),
        after(0, Err("early")),
    ];
    match try_join_poll(&mut cells, &mut cx()) {
        Poll::Ready(Err(e)) => assert_eq!(e, "early"),
        _ => panic!("try_join should fail"),
    }
}

#[test]
fn try_join_all_successes() {
    let mut cells = vec![after(1, Ok::<u32, &str>(1)), after(0, Ok(2))];
    let mut cx = cx();
    assert!(matches!(try_join_poll(&mut cells, &mut cx), Poll::Pending));
    match try_join_poll(&mut cells, &mut cx) {
        Poll::Ready(Ok(vs)) => assert_eq!(vs, vec![1, 2]),
        _ => panic!("try_join should succeed"),
    }
}

#[test]
fn select_takes_the_ready_source() {
    let mut cells = vec![never(0u8), after(0, 1u8)];
    match select_poll(&mut cells, &mut cx()) {
        Poll::Ready(v) => assert_eq!(v, 1),
        Poll::Pending => panic!("select should be ready"),
    }
}

#[test]
fn select_tie_goes_to_earlier_declaration() {
    let mut cells = vec![after(0, 1u8), after(0, 2u8), after(0, 3u8)];
    match select_poll(&mut cells, &mut cx()) {
        Poll::Ready(v) => assert_eq!(v, 1),
        Poll::Pending => panic!("select should be ready"),
    }
    // Losers after the winner are not polled on the winning drive.
    assert_eq!(polls_of(&cells[1]), Some(0));
}

#[test]
fn select_pending_until_one_completes() {
    let mut cells = vec![after(2, 5u8), after(3, 6u8)];
    let mut cx = cx();
    assert!(matches!(select_poll(&mut cells, &mut cx), Poll::Pending));
    assert!(matches!(select_poll(&mut cells, &mut cx), Poll::Pending));
    match select_poll(&mut cells, &mut cx) {
        Poll::Ready(v) => assert_eq!(v, 5),
        Poll::Pending => panic!("select should be ready"),
    }
}

#[test]
fn try_select_first_success() {
    let mut cells = vec![
        never(Ok::<u8, &str>(0)),
        after(0, Err("b")),
        after(0, Ok(1)),
    ];
    match try_select_poll(&mut cells, &mut cx()) {
        Poll::Ready(Ok(v)) => assert_eq!(v, 1),
        _ => panic!("try_select should succeed"),
    }
}

#[test]
fn try_select_waits_while_only_failures() {
    let mut cells = vec![
        never(Ok::<u8, &str>(0)),
        after(0, Err("b")),
        after(1, Ok(1)),
    ];
    let mut cx = cx();
    // Only the failing source has resolved and another is still running.
    assert!(matches!(try_select_poll(&mut cells, &mut cx), Poll::Pending));
    match try_select_poll(&mut cells, &mut cx) {
        Poll::Ready(Ok(v)) => assert_eq!(v, 1),
        _ => panic!("try_select should succeed"),
    }
}

#[test]
fn try_select_all_fail_gives_first_declared_failure() {
    let mut cells = vec![after(0, Err::<u8, &str>("f1")), after(0, Err("f2"))];
    match try_select_poll(&mut cells, &mut cx()) {
        Poll::Ready(Err(e)) => assert_eq!(e, "f1"),
        _ => panic!("try_select should fail"),
    }
}

#[test]
fn take_twice_yields_nothing() {
    let mut cell = after(0, 7u8);
    assert!(cell.take_output().is_none());
    assert!(matches!(cell.poll(&mut cx()), Poll::Ready(())));
    assert_eq!(cell.output(), Some(&7));
    assert_eq!(cell.take_output(), Some(7));
    assert_eq!(cell.take_output(), None);
    assert_eq!(cell.take_output(), None);
    assert!(cell.output().is_none());
}

#[test]
fn completed_cell_is_not_polled_again() {
    let mut cell = MaybeDone::new(After { pending_polls: 0, value: 4u8, polls: 0 });
    let mut cx = cx();
    assert!(matches!(cell.poll(&mut cx), Poll::Ready(())));
    // The source panics if polled after completion.
    assert!(matches!(cell.poll(&mut cx), Poll::Ready(())));
    assert_eq!(cell.output(), Some(&4));
}

#[test]
fn output_mut_changes_the_held_value() {
    let mut cell = after(0, 1u8);
    assert!(cell.output_mut().is_none());
    cell.poll(&mut cx());
    if let Some(v) = cell.output_mut() {
        *v = 9;
    }
    assert_eq!(cell.take_output(), Some(9));
}

#[test]
fn join_struct_ready_exactly_once() {
    let mut j = Join::new(vec![
        After { pending_polls: 1, value: 1u8, polls: 0 },
        After { pending_polls: 0, value: 2u8, polls: 0 },
    ]);
    let mut cx = cx();
    assert!(matches!(j.poll_once(&mut cx), Poll::Pending));
    match j.poll_once(&mut cx) {
        Poll::Ready(vs) => assert_eq!(vs, vec![1, 2]),
        Poll::Pending => panic!("join should be ready"),
    }
    // Driven again through the trait, a finished join stays pending.
    assert!(matches!(j.poll(&mut cx), Poll::Pending));
}

#[test]
fn combinators_compose() {
    // A select between two joins: the join that completes first wins.
    let slow = Join::new(vec![
        After { pending_polls: 3, value: 1u8, polls: 0 },
        After { pending_polls: 0, value: 2u8, polls: 0 },
    ]);
    let fast = Join::new(vec![
        After { pending_polls: 1, value: 3u8, polls: 0 },
        After { pending_polls: 1, value: 4u8, polls: 0 },
    ]);
    let mut s = Select::new(vec![slow, fast]);
    let mut cx = cx();
    assert!(matches!(s.poll(&mut cx), Poll::Pending));
    match s.poll(&mut cx) {
        Poll::Ready(vs) => assert_eq!(vs, vec![3, 4]),
        Poll::Pending => panic!("select should be ready"),
    }
}

#[test]
fn try_join_struct_fails_once() {
    let mut j = TryJoin::new(vec![
        After { pending_polls: 0, value: Ok::<u8, u8>(1), polls: 0 },
        After { pending_polls: 0, value: Err(9), polls: 0 },
    ]);
    let mut cx = cx();
    assert!(matches!(j.poll_once(&mut cx), Poll::Ready(Err(9))));
    assert!(matches!(j.poll(&mut cx), Poll::Pending));
}

#[test]
fn try_select_struct_all_fail() {
    let mut s = TrySelect::new(vec![
        After { pending_polls: 1, value: Err::<u8, &str>("f1"), polls: 0 },
        After { pending_polls: 0, value: Err("f2"), polls: 0 },
    ]);
    let mut cx = cx();
    assert!(matches!(s.poll_once(&mut cx), Poll::Pending));
    assert!(matches!(s.poll_once(&mut cx), Poll::Ready(Err("f1"))));
    assert!(matches!(s.poll(&mut cx), Poll::Pending));
}

#[test]
fn poll_all_reports_all_done_and_take_all_keeps_order() {
    let mut cells = vec![after(0, 'a'), after(1, 'b')];
    let mut cx = cx();
    assert!(!poll_all(&mut cells, &mut cx));
    assert!(matches!(cells[0], MaybeDone::Done('a')));
    assert!(poll_all(&mut cells, &mut cx));
    assert_eq!(take_all(&mut cells), vec!['a', 'b']);
    assert!(cells.iter().all(|c| matches!(c, MaybeDone::Gone)));
}

#[test]
fn maybe_done_all_keeps_order() {
    let cells = maybe_done_all(vec![
        After { pending_polls: 0, value: 1u8, polls: 0 },
        After { pending_polls: 0, value: 2u8, polls: 0 },
        After { pending_polls: 0, value: 3u8, polls: 0 },
    ]);
    let values: Vec<u8> = cells
        .iter()
        .map(|c| match c {
            MaybeDone::Future(f) => f.value,
            _ => panic!("cell should be running"),
        })
        .collect();
    assert_eq!(values, vec![1, 2, 3]);
}
