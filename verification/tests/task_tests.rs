//! Tests of the task value model: builder defaults, setters, derived fields,
//! the priority formula, and the reopen protocol.

use taskman::task::{Priority, TaskBuilder, Weight};

#[test]
fn fresh_builder_defaults() {
    let t = TaskBuilder::new().build();
    assert_eq!(t.get_context(), "");
    assert_eq!(t.get_description(), "");
    assert_eq!(t.get_days_to_start(), 0);
    assert_eq!(t.get_days_to_end(), 0);
    assert_eq!(t.get_weight(), Weight::Med);
    assert_eq!(t.get_days_to_finish(), 0);
    assert_eq!(t.get_priority(), Priority::Infinite);
}

#[test]
fn setters_overwrite_one_field_each() {
    let t = TaskBuilder::new()
        .with_context("pay rent".to_string())
        .with_description("before the first".to_string())
        .with_days_to_start(2)
        .with_days_to_end(7)
        .with_weight(Weight::High)
        .build();
    assert_eq!(t.get_context(), "pay rent");
    assert_eq!(t.get_description(), "before the first");
    assert_eq!(t.get_days_to_start(), 2);
    assert_eq!(t.get_days_to_end(), 7);
    assert_eq!(t.get_weight(), Weight::High);
    assert_eq!(t.get_days_to_finish(), 5);
    assert_eq!(t.get_priority(), Priority::Finite { num: 3, den: 5 });
}

#[test]
fn setters_are_idempotent() {
    let a = TaskBuilder::new().with_days_to_start(4).with_days_to_start(4).build();
    let b = TaskBuilder::new().with_days_to_start(4).build();
    assert_eq!(a, b);
}

#[test]
fn closed_window_gives_infinite_priority_for_every_weight() {
    for w in [Weight::Low, Weight::Med, Weight::High] {
        let equal = TaskBuilder::new()
            .with_days_to_start(3)
            .with_days_to_end(3)
            .with_weight(w)
            .build();
        assert_eq!(equal.get_days_to_finish(), 0);
        assert_eq!(equal.get_priority(), Priority::Infinite);

        let inverted = TaskBuilder::new()
            .with_days_to_start(9)
            .with_days_to_end(2)
            .with_weight(w)
            .build();
        assert_eq!(inverted.get_days_to_finish(), 0);
        assert_eq!(inverted.get_priority(), Priority::Infinite);
    }
}

#[test]
fn open_window_priority_is_multiplier_over_window() {
    let med = TaskBuilder::new().with_weight(Weight::Med).with_days_to_end(2).build();
    assert_eq!(med.get_priority(), Priority::Finite { num: 2, den: 2 });

    let high = TaskBuilder::new().with_weight(Weight::High).with_days_to_end(1).build();
    assert_eq!(high.get_priority(), Priority::Finite { num: 3, den: 1 });

    let low = TaskBuilder::new().with_weight(Weight::Low).with_days_to_end(3).build();
    assert_eq!(low.get_priority(), Priority::Finite { num: 1, den: 3 });
}

#[test]
fn window_saturates_at_zero() {
    let t = TaskBuilder::new().with_days_to_start(usize::MAX).with_days_to_end(1).build();
    assert_eq!(t.get_days_to_finish(), 0);
    assert_eq!(t.get_priority(), Priority::Infinite);
}

#[test]
fn edit_reopens_every_field_and_rebuild_rederives() {
    let t = TaskBuilder::new()
        .with_context("a".to_string())
        .with_description("b".to_string())
        .with_days_to_start(1)
        .with_days_to_end(4)
        .with_weight(Weight::Low)
        .build();
    let rebuilt = t.clone().edit().build();
    assert_eq!(rebuilt, t);

    let widened = t.edit().with_days_to_end(11).build();
    assert_eq!(widened.get_context(), "a");
    assert_eq!(widened.get_description(), "b");
    assert_eq!(widened.get_days_to_start(), 1);
    assert_eq!(widened.get_days_to_end(), 11);
    assert_eq!(widened.get_days_to_finish(), 10);
    assert_eq!(widened.get_priority(), Priority::Finite { num: 1, den: 10 });
}

#[test]
fn with_updates_applies_only_supplied_fields() {
    let base = TaskBuilder::new()
        .with_context("old".to_string())
        .with_days_to_start(1)
        .with_days_to_end(5)
        .build();
    let edited = base.edit().with_updates(
        Some("new".to_string()),
        None,
        None,
        Some(9),
        Some(Weight::High),
    ).build();
    assert_eq!(edited.get_context(), "new");
    assert_eq!(edited.get_description(), "");
    assert_eq!(edited.get_days_to_start(), 1);
    assert_eq!(edited.get_days_to_end(), 9);
    assert_eq!(edited.get_weight(), Weight::High);
    assert_eq!(edited.get_days_to_finish(), 8);
}

#[test]
fn with_updates_of_nothing_changes_nothing() {
    let base = TaskBuilder::new().with_context("keep".to_string()).with_days_to_end(3);
    let same = base.clone().with_updates(None, None, None, None, None);
    assert_eq!(same, base);
}

#[test]
fn record_round_trip_keeps_every_field() {
    let t = TaskBuilder::new()
        .with_context("ctx".to_string())
        .with_description("desc".to_string())
        .with_days_to_start(2)
        .with_days_to_end(6)
        .with_weight(Weight::High)
        .build();
    let rec = t.to_record();
    assert_eq!(rec.context, "ctx");
    assert_eq!(rec.description, "desc");
    assert_eq!(rec.days_to_start, 2);
    assert_eq!(rec.days_to_end, 6);
    assert_eq!(rec.days_to_finish, 4);
    assert_eq!(rec.weight, Weight::High);
    assert_eq!(rec.priority, Priority::Finite { num: 3, den: 4 });
    let back = rec.into_task();
    assert_eq!(back, t);
}

#[test]
fn consistency_check_accepts_built_tasks_and_rejects_patched_records() {
    let t = TaskBuilder::new().with_days_to_end(4).build();
    assert!(t.is_consistent());

    let mut rec = t.to_record();
    assert!(rec.is_consistent());
    rec.days_to_finish = 7;
    assert!(!rec.is_consistent());
    assert!(!rec.into_task().is_consistent());

    let t2 = TaskBuilder::new().build();
    let mut rec2 = t2.to_record();
    rec2.priority = Priority::Finite { num: 2, den: 1 };
    assert!(!rec2.is_consistent());
}

#[test]
fn weight_order_is_low_med_high() {
    assert!(Weight::Low < Weight::Med);
    assert!(Weight::Med < Weight::High);
}
