//! The urgency order on tasks: descending priority, with tasks whose window
//! is already closed ranked among themselves by descending weight.

use vstd::prelude::*;

use crate::task::{Priority, TaskView};

verus! {

/// `a`'s score is at least `b`'s.  `Infinite` outranks every finite score;
/// two finite fractions compare by cross-multiplication, which is exact.
pub open spec fn prio_ge(a: Priority, b: Priority) -> bool {
    match (a, b) {
        (Priority::Infinite, _) => true,
        (Priority::Finite { .. }, Priority::Infinite) => false,
        (Priority::Finite { num: n1, den: d1 }, Priority::Finite { num: n2, den: d2 }) => n1 * d2
            >= n2 * d1,
    }
}

/// `a` may stand before `b` in the manager's sequence: higher or equal
/// priority, except that two due-now tasks compare by weight instead.
pub open spec fn rank_ge(a: TaskView, b: TaskView) -> bool {
    if a.priority is Infinite && b.priority is Infinite {
        a.weight.rank() >= b.weight.rank()
    } else {
        prio_ge(a.priority, b.priority)
    }
}

/// The manager's ordering invariant over a sequence of tasks: every element
/// ranks at least as high as every later one.
pub open spec fn sorted(s: Seq<TaskView>) -> bool {
    forall|i: int, j: int| 0 <= i < j < s.len() ==> rank_ge(s[i], s[j])
}

/// Every task in the sequence is well formed.
pub open spec fn all_wf(s: Seq<TaskView>) -> bool {
    forall|i: int| 0 <= i < s.len() ==> s[i].wf()
}

/// Any two tasks are comparable: the order has no gaps that would leave the
/// sort without a place for an element.
pub proof fn lemma_rank_total(a: TaskView, b: TaskView)
    ensures
        rank_ge(a, b) || rank_ge(b, a),
{
}

/// Cross-multiplied fraction comparison is transitive once the denominators
/// are positive.
proof fn lemma_fraction_ge_trans(n1: int, d1: int, n2: int, d2: int, n3: int, d3: int)
    by (nonlinear_arith)
    requires
        d1 >= 1,
        d2 >= 1,
        d3 >= 1,
        n1 * d2 >= n2 * d1,
        n2 * d3 >= n3 * d2,
    ensures
        n1 * d3 >= n3 * d1,
{
}

/// The rank order is transitive on tasks whose priorities a build can
/// produce.
pub proof fn lemma_rank_trans(a: TaskView, b: TaskView, c: TaskView)
    requires
        a.priority.valid(),
        b.priority.valid(),
        c.priority.valid(),
        rank_ge(a, b),
        rank_ge(b, c),
    ensures
        rank_ge(a, c),
{
    match (a.priority, b.priority, c.priority) {
        (
            Priority::Finite { num: n1, den: d1 },
            Priority::Finite { num: n2, den: d2 },
            Priority::Finite { num: n3, den: d3 },
        ) => {
            lemma_fraction_ge_trans(
                n1 as int,
                d1 as int,
                n2 as int,
                d2 as int,
                n3 as int,
                d3 as int,
            );
        },
        _ => {},
    }
}

} // verus!
