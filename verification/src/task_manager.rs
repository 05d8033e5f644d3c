//! The ordered collection of tasks: index-addressed access, removal and
//! insertion, bulk transforms, and the always-sorted invariant.

use vstd::prelude::*;
use vstd::multiset::Multiset;
use vstd::seq_lib::lemma_multiset_commutative;

use crate::ordering::{all_wf, lemma_rank_total, lemma_rank_trans, rank_ge, sorted};
use crate::task::{
    built_view, days_less, lemma_wf_priority_valid, Priority, Task, TaskBuilderView, TaskRecord,
    TaskView, Weight,
};

verus! {

/// The models of a sequence of tasks, element for element.
pub open spec fn views(s: Seq<Task>) -> Seq<TaskView> {
    s.map_values(|t: Task| t@)
}

/// How one task advances under a tick of `days`: both offsets are reduced,
/// saturating at zero, and the derived fields are those of a fresh build on
/// the new offsets.
pub open spec fn ticked(t: TaskView, days: usize) -> TaskView {
    built_view(
        TaskBuilderView {
            context: t.context,
            description: t.description,
            days_to_start: days_less(t.days_to_start, days),
            days_to_end: days_less(t.days_to_end, days),
            weight: t.weight,
        },
    )
}

/// Where a task of model `t` comes to stand when inserted into `s`: after
/// every element that ranks at least as high, before all others.  On a sorted
/// sequence this pins the result of an insertion exactly.
pub open spec fn insert_pos(s: Seq<TaskView>, t: TaskView) -> int
    decreases s.len(),
{
    if s.len() == 0 {
        0
    } else if !rank_ge(s[0], t) {
        0
    } else {
        1 + insert_pos(s.drop_first(), t)
    }
}

/// Where a batch of tasks comes to stand when inserted into `s` one after
/// the other, each at its insertion point.  This pins the result of every
/// bulk operation exactly.
pub open spec fn added_all(s: Seq<TaskView>, ts: Seq<TaskView>) -> Seq<TaskView>
    decreases ts.len(),
{
    if ts.len() == 0 {
        s
    } else {
        added_all(s.insert(insert_pos(s, ts[0]), ts[0]), ts.drop_first())
    }
}

/// The insertion point lies in the sequence, everything before it ranks at
/// least as high as the inserted task, and the element at it (if any) does
/// not.
pub proof fn lemma_insert_pos_props(s: Seq<TaskView>, t: TaskView)
    ensures
        0 <= insert_pos(s, t) <= s.len(),
        forall|k: int| 0 <= k < insert_pos(s, t) ==> rank_ge(s[k], t),
        insert_pos(s, t) < s.len() ==> !rank_ge(s[insert_pos(s, t)], t),
    decreases s.len(),
{
    if s.len() == 0 {
    } else if !rank_ge(s[0], t) {
    } else {
        lemma_insert_pos_props(s.drop_first(), t);
        assert forall|k: int| 0 <= k < insert_pos(s, t) implies rank_ge(s[k], t) by {
            if k > 0 {
                assert(s.drop_first()[k - 1] == s[k]);
            }
        }
    }
}

/// Any index with the insertion point's characteristic properties is the
/// insertion point: it is the first index whose element ranks below the task.
pub proof fn lemma_insert_pos_unique(s: Seq<TaskView>, t: TaskView, p: int)
    requires
        0 <= p <= s.len(),
        forall|k: int| 0 <= k < p ==> rank_ge(s[k], t),
        p < s.len() ==> !rank_ge(s[p], t),
    ensures
        p == insert_pos(s, t),
    decreases s.len(),
{
    if s.len() == 0 {
    } else if p == 0 {
    } else {
        assert(rank_ge(s[0], t));
        assert forall|k: int| 0 <= k < p - 1 implies rank_ge(s.drop_first()[k], t) by {
            assert(s.drop_first()[k] == s[k + 1]);
        }
        assert(p - 1 < s.drop_first().len() ==> !rank_ge(s.drop_first()[p - 1], t));
        lemma_insert_pos_unique(s.drop_first(), t, p - 1);
    }
}

/// Inserting a well-formed task at its insertion point keeps a sorted
/// sequence sorted.
pub proof fn lemma_sorted_insert(s: Seq<TaskView>, t: TaskView)
    requires
        sorted(s),
        all_wf(s),
        t.wf(),
    ensures
        sorted(s.insert(insert_pos(s, t), t)),
{
    let p = insert_pos(s, t);
    lemma_insert_pos_props(s, t);
    let s2 = s.insert(p, t);
    assert forall|i: int, j: int| 0 <= i < j < s2.len() implies rank_ge(s2[i], s2[j]) by {
        lemma_wf_priority_valid(t);
        if i < p && j < p {
            assert(s2[i] == s[i] && s2[j] == s[j]);
        } else if i < p && j == p {
            assert(s2[i] == s[i] && s2[j] == t);
        } else if i < p && j > p {
            assert(s2[i] == s[i] && s2[j] == s[j - 1]);
        } else if i == p && j > p {
            assert(s2[i] == t && s2[j] == s[j - 1]);
            assert(p < s.len());
            lemma_rank_total(s[p], t);
            assert(rank_ge(t, s[p]));
            if j - 1 > p {
                assert(rank_ge(s[p], s[j - 1]));
                lemma_wf_priority_valid(s[p]);
                lemma_wf_priority_valid(s[j - 1]);
                lemma_rank_trans(t, s[p], s[j - 1]);
            }
        } else {
            assert(i > p && j > p);
            assert(s2[i] == s[i - 1] && s2[j] == s[j - 1]);
        }
    }
}

/// The models of a sequence of records, element for element.
pub open spec fn record_views(s: Seq<TaskRecord>) -> Seq<TaskView> {
    s.map_values(|r: TaskRecord| r@)
}

/// Element-for-element reading of [`views`].
pub proof fn lemma_views_index(s: Seq<Task>, i: int)
    requires
        0 <= i < s.len(),
    ensures
        views(s)[i] == s[i]@,
{
}

/// A sequence of no tasks has the empty multiset.
proof fn lemma_empty_multiset(s: Seq<TaskView>)
    requires
        s.len() == 0,
    ensures
        s.to_multiset() =~= Multiset::<TaskView>::empty(),
{
    s.to_multiset_ensures();
    vstd::multiset::lemma_multiset_empty_len(s.to_multiset());
}

/// Inserting an element anywhere adds exactly that element to the sequence's
/// multiset.
pub proof fn lemma_to_multiset_insert(s: Seq<TaskView>, p: int, t: TaskView)
    requires
        0 <= p <= s.len(),
    ensures
        s.insert(p, t).to_multiset() =~= s.to_multiset().insert(t),
{
    let s1 = s.subrange(0, p);
    let s2 = s.subrange(p, s.len() as int);
    assert(s.insert(p, t) =~= s1 + seq![t] + s2);
    assert(s =~= s1 + s2);
    lemma_multiset_commutative(s1 + seq![t], s2);
    lemma_multiset_commutative(s1, seq![t]);
    lemma_multiset_commutative(s1, s2);
    assert(seq![t] =~= Seq::<TaskView>::empty().push(t));
    Seq::<TaskView>::empty().to_multiset_ensures();
    assert(Seq::<TaskView>::empty().to_multiset() =~= Multiset::<TaskView>::empty());
    assert(seq![t].to_multiset() =~= Multiset::<TaskView>::empty().insert(t));
}

/// An ordered sequence of tasks, index-addressed, kept sorted by descending
/// priority (closed-window tasks first, among themselves by descending
/// weight) after every mutation.
#[derive(Debug, Clone)]
pub struct TaskManager {
    m_tasks: Vec<Task>,
}

impl View for TaskManager {
    type V = Seq<TaskView>;

    open spec fn view(&self) -> Seq<TaskView> {
        views(self.tasks_seq())
    }
}

impl TaskManager {
    /// The stored tasks themselves, for contracts that must speak of the
    /// task values and not only of their models.
    pub closed spec fn tasks_seq(&self) -> Seq<Task> {
        self.m_tasks@
    }

    /// The manager's invariant: the sequence is sorted by the urgency order
    /// and every task's derived fields are consistent.  Every operation
    /// preserves it.
    pub open spec fn well_formed(self) -> bool {
        &&& sorted(self@)
        &&& all_wf(self@)
    }

    /// An empty manager.
    pub fn new() -> (m: TaskManager)
        ensures
            m@ == Seq::<TaskView>::empty(),
            m.well_formed(),
    {
        let m = TaskManager { m_tasks: Vec::new() };
        proof {
            assert(m@ =~= Seq::<TaskView>::empty());
        }
        m
    }

    /// Inserts the task and re-establishes the sort order.  The task comes to
    /// stand exactly at its insertion point: after every task that ranks at
    /// least as high, before all others; a newly added task therefore goes
    /// behind existing tasks of equal rank.
    pub fn add_task(&mut self, task: Task)
        requires
            old(self).well_formed(),
            task@.wf(),
        ensures
            final(self)@ == old(self)@.insert(insert_pos(old(self)@, task@), task@),
            final(self).well_formed(),
    {
        let ghost s = self@;
        let i = find_insert_pos(&self.m_tasks, &task);
        proof {
            lemma_insert_pos_unique(s, task@, i as int);
            lemma_sorted_insert(s, task@);
        }
        self.m_tasks.insert(i, task);
        proof {
            assert(self@ =~= s.insert(i as int, task@));
            assert forall|k: int| 0 <= k < self@.len() implies self@[k].wf() by {
                if k < i {
                    assert(self@[k] == s[k]);
                } else if k > i {
                    assert(self@[k] == s[k - 1]);
                }
            }
        }
    }

    /// Read-only access to the task at `index`; absent when the index is out
    /// of range, for any manager state.
    pub fn peek_task(&self, index: usize) -> (r: Option<&Task>)
        ensures
            index < self@.len() ==> (r matches Some(t) && t@ == self@[index as int]),
            index >= self@.len() ==> r is None,
    {
        if index < self.m_tasks.len() {
            let t = &self.m_tasks[index];
            assert(t@ == self@[index as int]);
            Some(t)
        } else {
            None
        }
    }

    /// Removes and returns the task at `index`, shifting later tasks down;
    /// absent when the index is out of range, in which case the manager is
    /// left unmodified.  Removal cannot disturb the sort order.
    pub fn take_task(&mut self, index: usize) -> (r: Option<Task>)
        ensures
            index < old(self)@.len() ==> (r matches Some(t) && t@ == old(self)@[index as int]
                && final(self)@ == old(self)@.remove(index as int)),
            index >= old(self)@.len() ==> r is None && final(self)@ == old(self)@,
            old(self).well_formed() ==> final(self).well_formed(),
    {
        let ghost s = self@;
        if index >= self.m_tasks.len() {
            None
        } else {
            let t = self.m_tasks.remove(index);
            proof {
                assert(self@ =~= s.remove(index as int));
                if old(self).well_formed() {
                    assert forall|i: int, j: int|
                        0 <= i < j < self@.len() implies rank_ge(self@[i], self@[j]) by {
                        let ii = if i < index { i } else { i + 1 };
                        let jj = if j < index { j } else { j + 1 };
                        assert(self@[i] == s[ii] && self@[j] == s[jj]);
                    }
                    assert forall|i: int| 0 <= i < self@.len() implies self@[i].wf() by {
                        let ii = if i < index { i } else { i + 1 };
                        assert(self@[i] == s[ii]);
                    }
                }
            }
            Some(t)
        }
    }

    /// How many tasks the manager holds.
    pub fn len(&self) -> (n: usize)
        ensures
            n == self@.len(),
    {
        self.m_tasks.len()
    }

    /// Whether the manager holds no tasks.
    pub fn is_empty(&self) -> (r: bool)
        ensures
            r == (self@.len() == 0),
    {
        self.m_tasks.is_empty()
    }

    /// Inserts a batch of tasks, one after the other, ending sorted once:
    /// afterwards the manager holds exactly the old tasks and the batch.
    pub fn add_tasks(&mut self, tasks: Vec<Task>)
        requires
            old(self).well_formed(),
            all_wf(views(tasks@)),
        ensures
            final(self).well_formed(),
            final(self)@ == added_all(old(self)@, views(tasks@)),
            final(self)@.len() == old(self)@.len() + tasks@.len(),
            final(self)@.to_multiset() == old(self)@.to_multiset().add(
                views(tasks@).to_multiset(),
            ),
    {
        let ghost incoming = views(tasks@);
        let mut rest = tasks;
        while rest.len() > 0
            invariant
                self.well_formed(),
                all_wf(views(rest@)),
                self@.len() + rest@.len() == old(self)@.len() + incoming.len(),
                added_all(self@, views(rest@)) == added_all(old(self)@, incoming),
                self@.to_multiset().add(views(rest@).to_multiset()) =~= old(
                    self,
                )@.to_multiset().add(incoming.to_multiset()),
            decreases rest.len(),
        {
            let ghost pre_self = self@;
            let ghost pre_rest = views(rest@);
            let t = rest.remove(0);
            proof {
                assert(views(rest@) =~= pre_rest.remove(0));
                assert(views(rest@) =~= pre_rest.drop_first());
                pre_rest.to_multiset_ensures();
                assert(views(rest@).to_multiset() =~= pre_rest.to_multiset().remove(pre_rest[0]));
            }
            self.add_task(t);
            proof {
                assert(added_all(pre_self, pre_rest) == added_all(self@, pre_rest.drop_first()));
                lemma_insert_pos_props(pre_self, t@);
                lemma_to_multiset_insert(pre_self, insert_pos(pre_self, t@), t@);
                pre_rest.to_multiset_ensures();
                assert(pre_rest.to_multiset().count(pre_rest[0]) > 0);
                assert(self@.to_multiset().add(views(rest@).to_multiset()) =~= pre_self.to_multiset().add(
                    pre_rest.to_multiset(),
                ));
            }
        }
        proof {
            lemma_empty_multiset(views(rest@));
            assert(self@.to_multiset().add(views(rest@).to_multiset()) =~= self@.to_multiset());
            assert(views(rest@) =~= Seq::<TaskView>::empty());
            assert(added_all(self@, Seq::<TaskView>::empty()) == self@);
        }
    }

    /// Replaces every stored task with the image the supplied transform gives
    /// for it, then restores the sort order once.  The transform must be
    /// callable on any task and may only produce well-formed tasks — which
    /// every builder-made task is.
    pub fn map<F: Fn(Task) -> Task>(&mut self, f: F)
        requires
            old(self).well_formed(),
            forall|t: Task| #[trigger] call_requires(f, (t,)),
            forall|t: Task, r: Task| call_ensures(f, (t,), r) ==> r@.wf(),
        ensures
            final(self).well_formed(),
            final(self)@.len() == old(self)@.len(),
            exists|mid: Seq<Task>|
                {
                    &&& mid.len() == old(self).tasks_seq().len()
                    &&& (forall|i: int|
                        0 <= i < mid.len() ==> call_ensures(
                            f,
                            (old(self).tasks_seq()[i],),
                            #[trigger] mid[i],
                        ))
                    &&& final(self)@ == added_all(Seq::<TaskView>::empty(), views(mid))
                    &&& final(self)@.to_multiset() == views(mid).to_multiset()
                },
    {
        let ghost orig = self.tasks_seq();
        let mut transformed: Vec<Task> = Vec::new();
        proof {
            assert(self.m_tasks@ =~= orig.subrange(0, orig.len() as int));
        }
        while self.m_tasks.len() > 0
            invariant
                forall|t: Task| #[trigger] call_requires(f, (t,)),
                forall|t: Task, r: Task| call_ensures(f, (t,), r) ==> r@.wf(),
                transformed@.len() + self.m_tasks@.len() == orig.len(),
                self.m_tasks@ == orig.subrange(transformed@.len() as int, orig.len() as int),
                forall|i: int|
                    0 <= i < transformed@.len() ==> call_ensures(
                        f,
                        (orig[i],),
                        #[trigger] transformed@[i],
                    ),
                all_wf(views(transformed@)),
            decreases self.m_tasks.len(),
        {
            let ghost done = transformed@.len() as int;
            let t = self.m_tasks.remove(0);
            assert(t == orig[done]);
            let r = f(t);
            transformed.push(r);
            proof {
                assert(self.m_tasks@ =~= orig.subrange(done + 1, orig.len() as int));
                assert forall|i: int| 0 <= i < views(transformed@).len() implies views(
                    transformed@,
                )[i].wf() by {
                    lemma_views_index(transformed@, i);
                    if i == done {
                        assert(transformed@[i] == r);
                    }
                }
            }
        }
        let ghost mid = transformed@;
        proof {
            assert(self@ =~= Seq::<TaskView>::empty());
        }
        self.add_tasks(transformed);
        proof {
            lemma_empty_multiset(Seq::<TaskView>::empty());
            assert(Multiset::<TaskView>::empty().add(views(mid).to_multiset()) =~= views(
                mid,
            ).to_multiset());
            assert({
                &&& mid.len() == orig.len()
                &&& (forall|i: int|
                    0 <= i < mid.len() ==> call_ensures(f, (orig[i],), #[trigger] mid[i]))
                &&& self@.to_multiset() == views(mid).to_multiset()
            });
        }
    }

    /// Advances time by `days`: every task's start and deadline offsets are
    /// reduced by `days`, saturating at zero, the task is rebuilt so its
    /// window and priority reflect the new offsets, and the order is
    /// restored once.
    pub fn tick(&mut self, days: usize)
        requires
            old(self).well_formed(),
        ensures
            final(self).well_formed(),
            final(self)@.len() == old(self)@.len(),
            final(self)@ == added_all(
                Seq::<TaskView>::empty(),
                old(self)@.map_values(|t: TaskView| ticked(t, days)),
            ),
            final(self)@.to_multiset() == old(self)@.map_values(
                |t: TaskView| ticked(t, days),
            ).to_multiset(),
    {
        let ghost orig = self@;
        let mut transformed: Vec<Task> = Vec::new();
        proof {
            assert(views(self.m_tasks@) =~= orig.subrange(0, orig.len() as int));
        }
        while self.m_tasks.len() > 0
            invariant
                transformed@.len() + self.m_tasks@.len() == orig.len(),
                views(self.m_tasks@) == orig.subrange(
                    transformed@.len() as int,
                    orig.len() as int,
                ),
                forall|i: int|
                    0 <= i < transformed@.len() ==> #[trigger] views(transformed@)[i] == ticked(
                        orig[i],
                        days,
                    ),
            decreases self.m_tasks.len(),
        {
            let ghost pre_tasks = self.m_tasks@;
            let ghost done = transformed@.len() as int;
            let t = self.m_tasks.remove(0);
            proof {
                lemma_views_index(pre_tasks, 0);
                assert(t@ == views(pre_tasks)[0]);
                assert(t@ == orig[done]);
            }
            let starts = t.get_days_to_start();
            let ends = t.get_days_to_end();
            let rebuilt = t.edit().with_days_to_start(starts.saturating_sub(days)).with_days_to_end(
                ends.saturating_sub(days),
            ).build();
            proof {
                assert(rebuilt@ =~= ticked(orig[done], days));
            }
            let ghost pre_trans = transformed@;
            transformed.push(rebuilt);
            proof {
                assert forall|i: int|
                    0 <= i < self.m_tasks@.len() implies #[trigger] views(self.m_tasks@)[i]
                    == orig.subrange(done + 1, orig.len() as int)[i] by {
                    lemma_views_index(self.m_tasks@, i);
                    lemma_views_index(pre_tasks, i + 1);
                    assert(self.m_tasks@[i] == pre_tasks[i + 1]);
                    assert(views(pre_tasks)[i + 1] == orig[done + 1 + i]);
                }
                assert(views(self.m_tasks@) =~= orig.subrange(done + 1, orig.len() as int));
                assert forall|i: int|
                    0 <= i < transformed@.len() implies #[trigger] views(transformed@)[i] == ticked(
                    orig[i],
                    days,
                ) by {
                    lemma_views_index(transformed@, i);
                    if i == done {
                        assert(transformed@[i] == rebuilt);
                    } else {
                        lemma_views_index(pre_trans, i);
                        assert(transformed@[i] == pre_trans[i]);
                    }
                }
            }
        }
        let ghost mid = transformed@;
        proof {
            assert(self@ =~= Seq::<TaskView>::empty());
            assert(views(mid) =~= orig.map_values(|t: TaskView| ticked(t, days)));
            assert forall|i: int| 0 <= i < views(mid).len() implies views(mid)[i].wf() by {
                assert(views(mid)[i] == ticked(orig[i], days));
            }
        }
        self.add_tasks(transformed);
        proof {
            lemma_empty_multiset(Seq::<TaskView>::empty());
            assert(Multiset::<TaskView>::empty().add(views(mid).to_multiset()) =~= views(
                mid,
            ).to_multiset());
        }
    }

    /// Copies the tasks into their plain record form, in order: the persisted
    /// representation of the manager's state.
    pub fn to_records(&self) -> (r: Vec<TaskRecord>)
        ensures
            record_views(r@) == self@,
            r@.len() == self@.len(),
            forall|i: int| 0 <= i < r@.len() ==> #[trigger] r@[i]@ == self@[i],
    {
        let mut out: Vec<TaskRecord> = Vec::new();
        let mut i: usize = 0;
        let n = self.m_tasks.len();
        while i < n
            invariant
                0 <= i <= n,
                n == self.m_tasks@.len(),
                out@.len() == i,
                forall|k: int| 0 <= k < i ==> #[trigger] out@[k]@ == self@[k],
            decreases n - i,
        {
            let rec = self.m_tasks[i].to_record();
            proof {
                lemma_views_index(self.m_tasks@, i as int);
            }
            out.push(rec);
            i += 1;
        }
        proof {
            assert(record_views(out@) =~= self@);
        }
        out
    }

    /// Restores a manager from records, verbatim: the sequence of field-sets
    /// becomes the task sequence unchanged, in the order given.  Nothing is
    /// re-derived and nothing is re-sorted, so the result is well formed only
    /// if the records were; [`TaskManager::is_well_formed`] tells.
    pub fn from_records(records: Vec<TaskRecord>) -> (m: TaskManager)
        ensures
            m@ == record_views(records@),
            m@.len() == records@.len(),
            forall|i: int| 0 <= i < records@.len() ==> #[trigger] m@[i] == records@[i]@,
    {
        let ghost orig = records@;
        let mut rest = records;
        let mut tasks: Vec<Task> = Vec::new();
        while rest.len() > 0
            invariant
                tasks@.len() + rest@.len() == orig.len(),
                rest@ == orig.subrange(tasks@.len() as int, orig.len() as int),
                forall|k: int| 0 <= k < tasks@.len() ==> #[trigger] tasks@[k]@ == orig[k]@,
            decreases rest.len(),
        {
            let ghost done = tasks@.len() as int;
            let rec = rest.remove(0);
            assert(rec == orig[done]);
            tasks.push(rec.into_task());
            proof {
                assert(rest@ =~= orig.subrange(done + 1, orig.len() as int));
            }
        }
        let m = TaskManager { m_tasks: tasks };
        proof {
            assert forall|i: int| 0 <= i < orig.len() implies #[trigger] m@[i] == orig[i]@ by {
                lemma_views_index(m.m_tasks@, i);
            }
            assert(m@ =~= record_views(orig));
        }
        m
    }

    /// Decides the manager's invariant: every stored task consistent and the
    /// sequence sorted in the urgency order.  A freshly restored manager can
    /// be held to this before it is used further.
    pub fn is_well_formed(&self) -> (r: bool)
        ensures
            r == self.well_formed(),
    {
        let n = self.m_tasks.len();
        let mut i: usize = 0;
        while i < n
            invariant
                0 <= i <= n,
                n == self.m_tasks@.len(),
                forall|k: int| 0 <= k < i ==> self@[k].wf(),
            decreases n - i,
        {
            proof {
                lemma_views_index(self.m_tasks@, i as int);
            }
            if !self.m_tasks[i].is_consistent() {
                return false;
            }
            i += 1;
        }
        assert(all_wf(self@));
        if n == 0 {
            return true;
        }
        let mut j: usize = 0;
        while j + 1 < n
            invariant
                0 <= j < n,
                n == self.m_tasks@.len(),
                all_wf(self@),
                sorted(self@.subrange(0, j + 1)),
            decreases n - j,
        {
            proof {
                lemma_views_index(self.m_tasks@, j as int);
                lemma_views_index(self.m_tasks@, j + 1);
                lemma_wf_priority_valid(self@[j as int]);
                lemma_wf_priority_valid(self@[j + 1]);
            }
            if !rank_ge_exec(&self.m_tasks[j], &self.m_tasks[j + 1]) {
                assert(!rank_ge(self@[j as int], self@[j + 1]));
                return false;
            }
            proof {
                let pre = self@.subrange(0, j + 1);
                let ext = self@.subrange(0, j + 2);
                assert forall|a: int, b: int| 0 <= a < b < ext.len() implies rank_ge(
                    ext[a],
                    ext[b],
                ) by {
                    if b < j + 1 {
                        assert(pre[a] == ext[a] && pre[b] == ext[b]);
                        assert(rank_ge(pre[a], pre[b]));
                    } else {
                        assert(ext[b] == self@[j + 1]);
                        assert(ext[a] == self@[a]);
                        if a == j {
                            assert(rank_ge(self@[j as int], self@[j + 1]));
                        } else {
                            assert(pre[a] == self@[a] && pre[j as int] == self@[j as int]);
                            assert(rank_ge(self@[a], self@[j as int]));
                            lemma_wf_priority_valid(self@[a]);
                            lemma_rank_trans(self@[a], self@[j as int], self@[j + 1]);
                        }
                    }
                }
            }
            j += 1;
        }
        proof {
            assert(self@.subrange(0, j + 1) =~= self@);
        }
        true
    }
}

/// Taking the task at `index` out of a sorted sequence and immediately
/// re-adding the very same value restores the sequence exactly, provided the
/// task strictly outranks everything that followed it.  (When a distinct task
/// of equal rank follows, the re-added value comes to stand behind that task
/// instead, which reorders equals only.)
pub proof fn lemma_take_then_add_restores(s: Seq<TaskView>, index: int)
    requires
        sorted(s),
        all_wf(s),
        0 <= index < s.len(),
        forall|j: int| index < j < s.len() ==> !rank_ge(s[j], s[index]),
    ensures
        s.remove(index).insert(insert_pos(s.remove(index), s[index]), s[index]) == s,
{
    let t = s[index];
    let s1 = s.remove(index);
    assert forall|k: int| 0 <= k < index implies rank_ge(s1[k], t) by {
        assert(s1[k] == s[k]);
    }
    if index < s1.len() {
        assert(s1[index] == s[index + 1]);
    }
    lemma_insert_pos_unique(s1, t, index);
    assert(s1.insert(index, t) =~= s);
}

/// The index at which a task belongs in an ordered task vector: the first
/// whose element ranks below it, the length when none does.
fn find_insert_pos(tasks: &Vec<Task>, task: &Task) -> (i: usize)
    requires
        all_wf(views(tasks@)),
        task@.wf(),
    ensures
        0 <= i <= tasks@.len(),
        forall|k: int| 0 <= k < i ==> rank_ge(views(tasks@)[k], task@),
        i < tasks@.len() ==> !rank_ge(views(tasks@)[i as int], task@),
{
    let ghost s = views(tasks@);
    let mut i: usize = 0;
    let n = tasks.len();
    while i < n
        invariant
            0 <= i <= n,
            n == tasks@.len(),
            s == views(tasks@),
            all_wf(s),
            task@.wf(),
            forall|k: int| 0 <= k < i ==> rank_ge(s[k], task@),
        decreases n - i,
    {
        assert(tasks@[i as int]@ == s[i as int]);
        proof {
            lemma_wf_priority_valid(s[i as int]);
            lemma_wf_priority_valid(task@);
        }
        if !rank_ge_exec(&tasks[i], task) {
            return i;
        }
        i += 1;
    }
    i
}

/// Compares two tasks in the urgency order.  The cross-multiplied comparison
/// is exact: no rounding enters the ordering.
pub fn rank_ge_exec(a: &Task, b: &Task) -> (r: bool)
    requires
        a@.priority.valid(),
        b@.priority.valid(),
    ensures
        r == rank_ge(a@, b@),
{
    match (a.get_priority(), b.get_priority()) {
        (Priority::Infinite, Priority::Infinite) => weight_tier(a.get_weight()) >= weight_tier(
            b.get_weight(),
        ),
        (Priority::Infinite, Priority::Finite { .. }) => true,
        (Priority::Finite { .. }, Priority::Infinite) => false,
        (
            Priority::Finite { num: n1, den: d1 },
            Priority::Finite { num: n2, den: d2 },
        ) => {
            proof {
                lemma_small_product_fits(n1 as int, d2 as int);
                lemma_small_product_fits(n2 as int, d1 as int);
            }
            (n1 as u128) * (d2 as u128) >= (n2 as u128) * (d1 as u128)
        },
    }
}

/// The cross products of weight multipliers and day counts stay far below
/// the range used to compute them.
proof fn lemma_small_product_fits(n: int, d: int)
    by (nonlinear_arith)
    requires
        0 <= n <= 3,
        0 <= d <= usize::MAX,
    ensures
        n * d <= 3 * usize::MAX,
{
}

/// The position of a weight in the `Low < Med < High` order, as a value.
fn weight_tier(w: Weight) -> (r: u8)
    ensures
        r as int == w.rank(),
{
    match w {
        Weight::Low => 0,
        Weight::Med => 1,
        Weight::High => 2,
    }
}

} // verus!
