//! Tests of the ordered manager: the sort invariant under every mutation,
//! index-addressed access, the tick transform, and the record round trip.

use taskman::task::{Priority, Task, TaskBuilder, Weight};
use taskman::task_manager::TaskManager;

fn task(context: &str, weight: Weight, start: usize, end: usize) -> Task {
    TaskBuilder::new()
        .with_context(context.to_string())
        .with_weight(weight)
        .with_days_to_start(start)
        .with_days_to_end(end)
        .build()
}

fn contexts(m: &TaskManager) -> Vec<String> {
    let mut out = Vec::new();
    let mut i = 0;
    while let Some(t) = m.peek_task(i) {
        out.push(t.get_context().to_string());
        i += 1;
    }
    out
}

fn assert_sorted(m: &TaskManager) {
    let mut i = 0;
    while i + 1 < m.len() {
        let a = m.peek_task(i).unwrap();
        let b = m.peek_task(i + 1).unwrap();
        match (a.get_priority(), b.get_priority()) {
            (Priority::Infinite, Priority::Infinite) => {
                assert!(a.get_weight() >= b.get_weight());
            }
            (Priority::Infinite, Priority::Finite { .. }) => {}
            (Priority::Finite { .. }, Priority::Infinite) => {
                panic!("finite priority placed before infinite");
            }
            (
                Priority::Finite { num: n1, den: d1 },
                Priority::Finite { num: n2, den: d2 },
            ) => {
                assert!((n1 as u128) * (d2 as u128) >= (n2 as u128) * (d1 as u128));
            }
        }
        i += 1;
    }
}

#[test]
fn new_manager_is_empty() {
    let m = TaskManager::new();
    assert!(m.is_empty());
    assert_eq!(m.len(), 0);
}

#[test]
fn due_now_tie_breaks_by_weight_and_finite_sorts_below() {
    let mut m = TaskManager::new();
    m.add_task(task("0", Weight::Low, 0, 0));
    m.add_task(task("1", Weight::High, 0, 0));
    m.add_task(task("2", Weight::High, 0, 1));
    assert_eq!(contexts(&m), vec!["1", "0", "2"]);
    assert_sorted(&m);
}

#[test]
fn order_is_kept_after_every_add() {
    let mut m = TaskManager::new();
    m.add_task(task("a", Weight::Low, 0, 3));
    assert_sorted(&m);
    m.add_task(task("b", Weight::High, 0, 1));
    assert_sorted(&m);
    m.add_task(task("c", Weight::Med, 0, 0));
    assert_sorted(&m);
    m.add_task(task("d", Weight::High, 2, 4));
    assert_sorted(&m);
    assert_eq!(contexts(&m), vec!["c", "b", "d", "a"]);
}

#[test]
fn descending_priority_across_weights_and_windows() {
    let mut m = TaskManager::new();
    m.add_task(task("third", Weight::Low, 0, 1));
    m.add_task(task("first", Weight::High, 0, 1));
    m.add_task(task("second", Weight::Med, 0, 1));
    m.add_task(task("last", Weight::High, 0, 9));
    assert_eq!(contexts(&m), vec!["first", "second", "third", "last"]);
}

#[test]
fn add_tasks_bulk_load_ends_sorted() {
    let mut m = TaskManager::new();
    m.add_tasks(vec![
        task("a", Weight::Low, 0, 3),
        task("b", Weight::High, 0, 0),
        task("c", Weight::Med, 0, 1),
        task("d", Weight::Low, 0, 0),
    ]);
    assert_eq!(m.len(), 4);
    assert_eq!(contexts(&m), vec!["b", "d", "c", "a"]);
    assert_sorted(&m);
}

#[test]
fn peek_out_of_range_is_absent_never_a_fault() {
    let mut m = TaskManager::new();
    assert!(m.peek_task(0).is_none());
    assert!(m.peek_task(usize::MAX).is_none());
    m.add_task(task("x", Weight::Med, 0, 2));
    assert!(m.peek_task(0).is_some());
    assert!(m.peek_task(1).is_none());
    assert!(m.peek_task(2).is_none());
}

#[test]
fn take_out_of_range_is_absent_and_leaves_manager_unmodified() {
    let mut m = TaskManager::new();
    assert!(m.take_task(0).is_none());
    m.add_task(task("x", Weight::Med, 0, 2));
    m.add_task(task("y", Weight::High, 0, 1));
    assert!(m.take_task(2).is_none());
    assert!(m.take_task(usize::MAX).is_none());
    assert_eq!(m.len(), 2);
    assert_eq!(contexts(&m), vec!["y", "x"]);
}

#[test]
fn take_removes_exactly_the_indexed_task_and_shifts() {
    let mut m = TaskManager::new();
    m.add_task(task("a", Weight::Low, 0, 3));
    m.add_task(task("b", Weight::High, 0, 1));
    m.add_task(task("c", Weight::Med, 0, 1));
    assert_eq!(contexts(&m), vec!["b", "c", "a"]);
    let taken = m.take_task(1).unwrap();
    assert_eq!(taken.get_context(), "c");
    assert_eq!(contexts(&m), vec!["b", "a"]);
}

#[test]
fn take_then_readd_restores_the_order() {
    let mut m = TaskManager::new();
    m.add_task(task("a", Weight::Low, 0, 3));
    m.add_task(task("b", Weight::High, 0, 1));
    m.add_task(task("c", Weight::Med, 0, 1));
    let before = contexts(&m);
    for i in 0..m.len() {
        let t = m.take_task(i).unwrap();
        m.add_task(t);
        assert_eq!(contexts(&m), before);
    }
}

#[test]
fn equal_rank_tasks_keep_insertion_order() {
    let mut m = TaskManager::new();
    m.add_task(task("a", Weight::Med, 0, 2));
    m.add_task(task("b", Weight::Med, 0, 2));
    m.add_task(task("c", Weight::Med, 0, 2));
    // A new task of equal rank goes behind the existing ones.
    assert_eq!(contexts(&m), vec!["a", "b", "c"]);
}

#[test]
fn take_then_readd_of_a_tied_task_moves_it_behind_its_equals() {
    let mut m = TaskManager::new();
    m.add_task(task("x1", Weight::High, 0, 0));
    m.add_task(task("x2", Weight::High, 0, 0));
    assert_eq!(contexts(&m), vec!["x1", "x2"]);
    let t = m.take_task(0).unwrap();
    m.add_task(t);
    // Both tasks are due now with the same weight, so the re-added one ranks
    // behind the other: only equals trade places.
    assert_eq!(contexts(&m), vec!["x2", "x1"]);
}

#[test]
fn map_transforms_every_task_and_resorts() {
    let mut m = TaskManager::new();
    m.add_task(task("wide", Weight::Low, 0, 10));
    m.add_task(task("narrow", Weight::Low, 0, 1));
    assert_eq!(contexts(&m), vec!["narrow", "wide"]);
    m.map(|t: Task| t.edit().with_weight(Weight::High).build());
    assert_eq!(m.len(), 2);
    for i in 0..m.len() {
        assert_eq!(m.peek_task(i).unwrap().get_weight(), Weight::High);
    }
    assert_sorted(&m);
}

#[test]
fn tick_subtracts_days_saturating_and_rederives() {
    let mut m = TaskManager::new();
    m.add_task(task("a", Weight::Med, 2, 6));
    m.add_task(task("b", Weight::Low, 0, 3));
    m.tick(3);
    assert_sorted(&m);
    let mut seen = std::collections::HashMap::new();
    for i in 0..m.len() {
        let t = m.peek_task(i).unwrap();
        seen.insert(t.get_context().to_string(), (
            t.get_days_to_start(),
            t.get_days_to_end(),
            t.get_days_to_finish(),
            t.get_priority(),
        ));
    }
    assert_eq!(seen["a"], (0, 3, 3, Priority::Finite { num: 2, den: 3 }));
    assert_eq!(seen["b"], (0, 0, 0, Priority::Infinite));
}

#[test]
fn tick_to_zero_pins_tasks_to_the_front() {
    let mut m = TaskManager::new();
    m.add_task(task("soon", Weight::Low, 0, 1));
    m.add_task(task("later", Weight::High, 0, 5));
    assert_eq!(contexts(&m), vec!["soon", "later"]);
    m.tick(1);
    // "soon" is now due, "later" still has four days.
    assert_eq!(contexts(&m), vec!["soon", "later"]);
    assert_eq!(m.peek_task(0).unwrap().get_priority(), Priority::Infinite);
}

#[test]
fn add_tasks_keeps_what_was_already_there() {
    let mut m = TaskManager::new();
    m.add_task(task("kept", Weight::High, 0, 0));
    m.add_tasks(vec![task("x", Weight::Low, 0, 4), task("y", Weight::Med, 0, 1)]);
    assert_eq!(m.len(), 3);
    assert_eq!(contexts(&m), vec!["kept", "y", "x"]);
}

#[test]
fn add_tasks_of_nothing_changes_nothing() {
    let mut m = TaskManager::new();
    m.add_task(task("only", Weight::Med, 0, 2));
    m.add_tasks(Vec::new());
    assert_eq!(contexts(&m), vec!["only"]);
}

#[test]
fn record_round_trip_reproduces_the_sequence() {
    let mut m = TaskManager::new();
    m.add_task(task("a", Weight::Low, 0, 3));
    m.add_task(task("b", Weight::High, 0, 0));
    m.add_task(task("c", Weight::Med, 1, 4));
    let records = m.to_records();
    assert_eq!(records.len(), 3);
    let restored = TaskManager::from_records(records);
    assert_eq!(restored.len(), m.len());
    for i in 0..m.len() {
        let x = m.peek_task(i).unwrap();
        let y = restored.peek_task(i).unwrap();
        assert_eq!(x, y);
    }
    assert!(restored.is_well_formed());
}

#[test]
fn from_records_restores_verbatim_even_unsorted() {
    let low = task("low", Weight::Low, 0, 5).to_record();
    let high = task("high", Weight::High, 0, 1).to_record();
    let restored = TaskManager::from_records(vec![low, high]);
    // The records were not in priority order and loading does not re-sort.
    assert_eq!(contexts(&restored), vec!["low", "high"]);
    assert!(!restored.is_well_formed());
}

#[test]
fn well_formedness_check_detects_patched_records() {
    let mut rec = task("x", Weight::Med, 0, 2).to_record();
    rec.days_to_finish = 9;
    let m = TaskManager::from_records(vec![rec]);
    assert!(!m.is_well_formed());

    let ok = TaskManager::from_records(vec![task("x", Weight::Med, 0, 2).to_record()]);
    assert!(ok.is_well_formed());

    assert!(TaskManager::new().is_well_formed());
}
