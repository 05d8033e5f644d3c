//! The task value model: importance weights, exact priority scores, the
//! staging builder, the frozen task, and the plain record form used for
//! persistence.

use vstd::prelude::*;

verus! {

/// Declared importance tier of a task, totally ordered `Low < Med < High`.
#[derive(Debug, Clone, Copy, PartialEq, Eq, PartialOrd, Ord)]
pub enum Weight {
    Low,
    Med,
    High,
}

impl Weight {
    /// Position of the weight in the `Low < Med < High` order.
    pub open spec fn rank(self) -> int {
        match self {
            Weight::Low => 0,
            Weight::Med => 1,
            Weight::High => 2,
        }
    }

    /// Numerator of the urgency score: `High` counts three times as much as
    /// `Low` per remaining day.
    pub open spec fn multiplier(self) -> usize {
        match self {
            Weight::Low => 1,
            Weight::Med => 2,
            Weight::High => 3,
        }
    }
}

/// Derived urgency score of a task.
///
/// A closed completion window pins the task to the front of the queue:
/// `Infinite` outranks every finite score.  A finite score is the exact
/// rational `num / den`, where `num` is the weight multiplier and `den` the
/// remaining completion window in days; keeping the fraction unreduced avoids
/// any rounding in comparisons.
#[derive(Debug, Clone, Copy, PartialEq, Eq, Structural)]
pub enum Priority {
    Infinite,
    Finite { num: usize, den: usize },
}

impl Priority {
    /// Bounds that hold of every priority a build can produce: the numerator
    /// is a weight multiplier and the denominator a positive day count.
    pub open spec fn valid(self) -> bool {
        match self {
            Priority::Infinite => true,
            Priority::Finite { num, den } => 1 <= num <= 3 && den >= 1,
        }
    }
}

/// `days_to_end - days_to_start`, saturated at zero: the completion window.
pub open spec fn window_of(days_to_start: usize, days_to_end: usize) -> usize {
    if days_to_end >= days_to_start {
        (days_to_end - days_to_start) as usize
    } else {
        0
    }
}

/// `d - k`, saturated at zero: how a day offset advances under a tick of
/// `k` days.
pub open spec fn days_less(d: usize, k: usize) -> usize {
    if d >= k {
        (d - k) as usize
    } else {
        0
    }
}

/// The priority derived from a weight and an already-computed completion
/// window: the infinite sentinel for a closed window, else the exact
/// fraction `multiplier / window`.
pub open spec fn priority_of(weight: Weight, days_to_finish: usize) -> Priority {
    if days_to_finish == 0 {
        Priority::Infinite
    } else {
        Priority::Finite { num: weight.multiplier(), den: days_to_finish }
    }
}

/// Mathematical model of a task: every stored field as a plain value.
#[verifier::ext_equal]
pub ghost struct TaskView {
    pub context: Seq<char>,
    pub description: Seq<char>,
    pub days_to_start: usize,
    pub days_to_end: usize,
    pub days_to_finish: usize,
    pub weight: Weight,
    pub priority: Priority,
}

impl TaskView {
    /// The derived fields agree with the stored ones; every task a build
    /// produces satisfies this, and every operation preserves it.
    pub open spec fn wf(self) -> bool {
        &&& self.days_to_finish == window_of(self.days_to_start, self.days_to_end)
        &&& self.priority == priority_of(self.weight, self.days_to_finish)
    }
}

/// A well-formed task's priority is `Infinite` or a fraction of a weight
/// multiplier over a positive day count.
pub proof fn lemma_wf_priority_valid(t: TaskView)
    requires
        t.wf(),
    ensures
        t.priority.valid(),
{
}

/// Mathematical model of a builder: the caller-supplied fields only; the
/// derived ones exist solely on built tasks.
#[verifier::ext_equal]
pub ghost struct TaskBuilderView {
    pub context: Seq<char>,
    pub description: Seq<char>,
    pub days_to_start: usize,
    pub days_to_end: usize,
    pub weight: Weight,
}

/// The task a builder in state `b` freezes into: the supplied fields carried
/// over, the window and priority recomputed.
pub open spec fn built_view(b: TaskBuilderView) -> TaskView {
    TaskView {
        context: b.context,
        description: b.description,
        days_to_start: b.days_to_start,
        days_to_end: b.days_to_end,
        days_to_finish: window_of(b.days_to_start, b.days_to_end),
        weight: b.weight,
        priority: priority_of(b.weight, window_of(b.days_to_start, b.days_to_end)),
    }
}

/// Mutable staging record for a task: accumulates field edits and produces
/// an immutable `Task` via [`TaskBuilder::build`].
#[derive(Debug, Clone, PartialEq)]
pub struct TaskBuilder {
    m_context: String,
    m_description: String,
    m_days_to_start: usize,
    m_days_to_end: usize,
    m_weight: Weight,
}

impl View for TaskBuilder {
    type V = TaskBuilderView;

    closed spec fn view(&self) -> TaskBuilderView {
        TaskBuilderView {
            context: self.m_context@,
            description: self.m_description@,
            days_to_start: self.m_days_to_start,
            days_to_end: self.m_days_to_end,
            weight: self.m_weight,
        }
    }
}

impl TaskBuilder {
    /// A fresh builder: empty labels, zero offsets, medium weight.
    pub fn new() -> (b: TaskBuilder)
        ensures
            b@ == (TaskBuilderView {
                context: Seq::<char>::empty(),
                description: Seq::<char>::empty(),
                days_to_start: 0,
                days_to_end: 0,
                weight: Weight::Med,
            }),
    {
        TaskBuilder {
            m_context: String::new(),
            m_description: String::new(),
            m_days_to_start: 0,
            m_days_to_end: 0,
            m_weight: Weight::Med,
        }
    }

    /// Overwrites the context label and nothing else.
    pub fn with_context(self, context: String) -> (b: TaskBuilder)
        ensures
            b@ == (TaskBuilderView { context: context@, ..self@ }),
    {
        TaskBuilder { m_context: context, ..self }
    }

    /// Overwrites the description label and nothing else.
    pub fn with_description(self, description: String) -> (b: TaskBuilder)
        ensures
            b@ == (TaskBuilderView { description: description@, ..self@ }),
    {
        TaskBuilder { m_description: description, ..self }
    }

    /// Overwrites the days-until-start offset and nothing else.
    pub fn with_days_to_start(self, days_to_start: usize) -> (b: TaskBuilder)
        ensures
            b@ == (TaskBuilderView { days_to_start, ..self@ }),
    {
        TaskBuilder { m_days_to_start: days_to_start, ..self }
    }

    /// Overwrites the days-until-deadline offset and nothing else.
    pub fn with_days_to_end(self, days_to_end: usize) -> (b: TaskBuilder)
        ensures
            b@ == (TaskBuilderView { days_to_end, ..self@ }),
    {
        TaskBuilder { m_days_to_end: days_to_end, ..self }
    }

    /// Overwrites the weight and nothing else.
    pub fn with_weight(self, weight: Weight) -> (b: TaskBuilder)
        ensures
            b@ == (TaskBuilderView { weight, ..self@ }),
    {
        TaskBuilder { m_weight: weight, ..self }
    }

    /// Applies one round of optional field edits in a single step: each
    /// supplied value overwrites its field, each absent one leaves the field
    /// as it stands.  This is the dialog protocol over a fresh or reopened
    /// builder: a collaborator passes the fields the user filled in and
    /// leaves the skipped ones absent.
    pub fn with_updates(
        self,
        context: Option<String>,
        description: Option<String>,
        days_to_start: Option<usize>,
        days_to_end: Option<usize>,
        weight: Option<Weight>,
    ) -> (b: TaskBuilder)
        ensures
            b@ == (TaskBuilderView {
                context: match context {
                    Some(c) => c@,
                    None => self@.context,
                },
                description: match description {
                    Some(d) => d@,
                    None => self@.description,
                },
                days_to_start: match days_to_start {
                    Some(n) => n,
                    None => self@.days_to_start,
                },
                days_to_end: match days_to_end {
                    Some(n) => n,
                    None => self@.days_to_end,
                },
                weight: match weight {
                    Some(w) => w,
                    None => self@.weight,
                },
            }),
    {
        let ghost orig = self@;
        let mut b = self;
        if let Some(c) = context {
            b = b.with_context(c);
        }
        if let Some(d) = description {
            b = b.with_description(d);
        }
        if let Some(n) = days_to_start {
            b = b.with_days_to_start(n);
        }
        if let Some(n) = days_to_end {
            b = b.with_days_to_end(n);
        }
        if let Some(w) = weight {
            b = b.with_weight(w);
        }
        b
    }

    /// Consumes the builder and freezes it into a task, computing the
    /// completion window (deadline minus start, floored at zero) and the
    /// priority.  Building is total: a closed window is not an error but
    /// yields the infinite due-now priority.
    pub fn build(self) -> (t: Task)
        ensures
            t@ == built_view(self@),
            t@.wf(),
            self@.days_to_end <= self@.days_to_start ==> t@.days_to_finish == 0
                && t@.priority == Priority::Infinite,
            self@.days_to_end > self@.days_to_start ==> t@.priority == (Priority::Finite {
                num: self@.weight.multiplier(),
                den: (self@.days_to_end - self@.days_to_start) as usize,
            }),
    {
        let days_to_finish = self.m_days_to_end.saturating_sub(self.m_days_to_start);
        let priority = if days_to_finish == 0 {
            Priority::Infinite
        } else {
            let num = match self.m_weight {
                Weight::High => 3,
                Weight::Med => 2,
                Weight::Low => 1,
            };
            Priority::Finite { num, den: days_to_finish }
        };
        let t = Task {
            m_context: self.m_context,
            m_description: self.m_description,
            m_days_to_start: self.m_days_to_start,
            m_days_to_end: self.m_days_to_end,
            m_days_to_finish: days_to_finish,
            m_weight: self.m_weight,
            m_priority: priority,
        };
        proof {
            assert(t@ =~= built_view(self@));
        }
        t
    }
}

/// An immutable task value: the two labels, the day offsets, and the derived
/// completion window and priority, consistent by construction.
#[derive(Debug, Clone, PartialEq)]
pub struct Task {
    m_context: String,
    m_description: String,
    m_days_to_start: usize,
    m_days_to_end: usize,
    m_days_to_finish: usize,
    m_weight: Weight,
    m_priority: Priority,
}

impl View for Task {
    type V = TaskView;

    closed spec fn view(&self) -> TaskView {
        TaskView {
            context: self.m_context@,
            description: self.m_description@,
            days_to_start: self.m_days_to_start,
            days_to_end: self.m_days_to_end,
            days_to_finish: self.m_days_to_finish,
            weight: self.m_weight,
            priority: self.m_priority,
        }
    }
}

impl Task {
    /// The context label.
    pub fn get_context(&self) -> (r: &str)
        ensures
            r@ == self@.context,
    {
        self.m_context.as_str()
    }

    /// The description label.
    pub fn get_description(&self) -> (r: &str)
        ensures
            r@ == self@.description,
    {
        self.m_description.as_str()
    }

    /// Days until the task may begin.
    pub fn get_days_to_start(&self) -> (r: usize)
        ensures
            r == self@.days_to_start,
    {
        self.m_days_to_start
    }

    /// Days until the deadline.
    pub fn get_days_to_end(&self) -> (r: usize)
        ensures
            r == self@.days_to_end,
    {
        self.m_days_to_end
    }

    /// The derived completion window.
    pub fn get_days_to_finish(&self) -> (r: usize)
        ensures
            r == self@.days_to_finish,
    {
        self.m_days_to_finish
    }

    /// The declared weight.
    pub fn get_weight(&self) -> (r: Weight)
        ensures
            r == self@.weight,
    {
        self.m_weight
    }

    /// The derived urgency score.
    pub fn get_priority(&self) -> (r: Priority)
        ensures
            r == self@.priority,
    {
        self.m_priority
    }

    /// Consumes the task and reopens it as a builder pre-populated with every
    /// caller-supplied field; the derived fields are recomputed on the next
    /// build.  This is the only path from a frozen task back to a mutable one.
    pub fn edit(self) -> (b: TaskBuilder)
        ensures
            b@ == (TaskBuilderView {
                context: self@.context,
                description: self@.description,
                days_to_start: self@.days_to_start,
                days_to_end: self@.days_to_end,
                weight: self@.weight,
            }),
    {
        TaskBuilder {
            m_context: self.m_context,
            m_description: self.m_description,
            m_days_to_start: self.m_days_to_start,
            m_days_to_end: self.m_days_to_end,
            m_weight: self.m_weight,
        }
    }

    /// Whether the derived fields agree with the stored ones.  Every task a
    /// build produces is consistent; one restored verbatim from a record
    /// need not be.
    pub fn is_consistent(&self) -> (r: bool)
        ensures
            r == self@.wf(),
    {
        let window = self.m_days_to_end.saturating_sub(self.m_days_to_start);
        if self.m_days_to_finish != window {
            return false;
        }
        match self.m_priority {
            Priority::Infinite => window == 0,
            Priority::Finite { num, den } => {
                let m = match self.m_weight {
                    Weight::High => 3,
                    Weight::Med => 2,
                    Weight::Low => 1,
                };
                window != 0 && num == m && den == window
            },
        }
    }

    /// Copies the task into its plain record form, field for field.
    pub fn to_record(&self) -> (r: TaskRecord)
        ensures
            r@ == self@,
    {
        let r = TaskRecord {
            context: self.m_context.clone(),
            description: self.m_description.clone(),
            days_to_start: self.m_days_to_start,
            days_to_end: self.m_days_to_end,
            days_to_finish: self.m_days_to_finish,
            weight: self.m_weight,
            priority: self.m_priority,
        };
        proof {
            assert(r@ =~= self@);
        }
        r
    }
}

/// A task laid open as a plain field-set: the persisted representation.
///
/// Records carry the derived fields verbatim, so a record need not be
/// consistent the way a built task is; [`TaskRecord::into_task`] restores
/// whatever the record holds, and a collaborator that wants the derived
/// fields recomputed rebuilds through a [`TaskBuilder`] instead.
#[derive(Debug, Clone, PartialEq)]
pub struct TaskRecord {
    pub context: String,
    pub description: String,
    pub days_to_start: usize,
    pub days_to_end: usize,
    pub days_to_finish: usize,
    pub weight: Weight,
    pub priority: Priority,
}

impl View for TaskRecord {
    type V = TaskView;

    open spec fn view(&self) -> TaskView {
        TaskView {
            context: self.context@,
            description: self.description@,
            days_to_start: self.days_to_start,
            days_to_end: self.days_to_end,
            days_to_finish: self.days_to_finish,
            weight: self.weight,
            priority: self.priority,
        }
    }
}

impl TaskRecord {
    /// Restores the record as a task, verbatim: no field is re-derived.
    pub fn into_task(self) -> (t: Task)
        ensures
            t@ == self@,
    {
        let ghost v = self@;
        let t = Task {
            m_context: self.context,
            m_description: self.description,
            m_days_to_start: self.days_to_start,
            m_days_to_end: self.days_to_end,
            m_days_to_finish: self.days_to_finish,
            m_weight: self.weight,
            m_priority: self.priority,
        };
        proof {
            assert(t@ =~= v);
        }
        t
    }

    /// Whether the record's derived fields agree with its stored ones, the
    /// way every built task's do.
    pub fn is_consistent(&self) -> (r: bool)
        ensures
            r == self@.wf(),
    {
        let window = self.days_to_end.saturating_sub(self.days_to_start);
        if self.days_to_finish != window {
            return false;
        }
        match self.priority {
            Priority::Infinite => window == 0,
            Priority::Finite { num, den } => {
                let m = match self.weight {
                    Weight::High => 3,
                    Weight::Med => 2,
                    Weight::Low => 1,
                };
                window != 0 && num == m && den == window
            },
        }
    }
}

} // verus!
