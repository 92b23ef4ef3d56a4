//! The task store model: the state every command invocation works on, and
//! the three operations (add, list incomplete, complete) with their exact
//! effect on that state.
//!
//! The store's persistent side (a file-backed table) lives outside this
//! library; here the state is held as a vector of tasks together with the
//! next id the store will hand out. Rows read back from the persistent
//! table re-enter through [`TodoList::from_rows`].

use vstd::prelude::*;
use crate::task::{Task, TaskView};

verus! {

/// All ids in the sequence are pairwise distinct.
pub open spec fn unique_ids(s: Seq<TaskView>) -> bool {
    forall|i: int, j: int| 0 <= i < j < s.len() ==> s[i].id != s[j].id
}

/// Every id in the sequence lies below `bound`.
pub open spec fn ids_below(s: Seq<TaskView>, bound: nat) -> bool {
    forall|i: int| 0 <= i < s.len() ==> s[i].id < bound
}

/// Effect of adding a batch of descriptions when the store would assign
/// `next` to the first new task: one fresh incomplete task per description,
/// in input order, with consecutive ids.
pub open spec fn add_spec(s: Seq<TaskView>, descs: Seq<Seq<char>>, next: nat) -> Seq<TaskView> {
    s + Seq::new(
        descs.len(),
        |i: int| TaskView { id: (next + i) as nat, description: descs[i], is_completed: false },
    )
}

/// Effect of marking the task with id `id` complete: that row's flag becomes
/// true, every other row is untouched. A missing id changes nothing.
pub open spec fn complete_spec(s: Seq<TaskView>, id: nat) -> Seq<TaskView> {
    s.map_values(
        |t: TaskView|
            if t.id == id {
                TaskView { is_completed: true, ..t }
            } else {
                t
            },
    )
}

/// The tasks a listing shows: exactly those not yet completed, in store order.
pub open spec fn incomplete_spec(s: Seq<TaskView>) -> Seq<TaskView> {
    s.filter(|t: TaskView| !t.is_completed)
}

/// The in-memory task store: all rows plus the next id to assign.
pub struct TodoList {
    pub tasks: Vec<Task>,
    pub next_id: usize,
}

impl View for TodoList {
    type V = Seq<TaskView>;

    open spec fn view(&self) -> Seq<TaskView> {
        self.tasks.deep_view()
    }
}

impl TodoList {
    /// Store invariant: ids are unique, every id lies below the next one to
    /// be assigned, and ids start at 1.
    pub open spec fn wf(&self) -> bool {
        &&& unique_ids(self@)
        &&& ids_below(self@, self.next_id as nat)
        &&& self.next_id >= 1
    }

    /// A freshly initialized, empty store; the first task will get id 1.
    pub fn new() -> (store: TodoList)
        ensures
            store.wf(),
            store@ == Seq::<TaskView>::empty(),
            store.next_id == 1,
    {
        let store = TodoList { tasks: Vec::new(), next_id: 1 };
        proof {
            assert(store@ =~= Seq::<TaskView>::empty());
        }
        store
    }

    /// Add one task per description, in input order, each incomplete, with
    /// consecutive fresh ids starting at `next_id`.
    pub fn add_task(&mut self, tasks: Vec<String>)
        requires
            old(self).wf(),
            old(self).next_id + tasks@.len() <= usize::MAX,
        ensures
            final(self).wf(),
            final(self)@ == add_spec(old(self)@, tasks.deep_view(), old(self).next_id as nat),
            final(self).next_id == old(self).next_id + tasks@.len(),
    {
        let ghost orig: Seq<TaskView> = self@;
        let ghost descs: Seq<Seq<char>> = tasks.deep_view();
        let ghost start: nat = self.next_id as nat;
        let n = tasks.len();
        let mut k: usize = 0;
        while k < n
            invariant
                k <= n,
                n == descs.len(),
                tasks.deep_view() == descs,
                self.next_id == start + k,
                start + n <= usize::MAX,
                self@ =~= add_spec(orig, descs.take(k as int), start),
                unique_ids(orig),
                ids_below(orig, start),
                start >= 1,
            decreases n - k,
        {
            let t = Task::new(self.next_id, tasks[k].as_str());
            self.tasks.push(t);
            self.next_id = self.next_id + 1;
            proof {
                assert(tasks@[k as int].deep_view() == descs[k as int]);
                assert(self@ =~= add_spec(orig, descs.take(k as int), start).push(t@));
                assert(self@ =~= add_spec(orig, descs.take(k + 1 as int), start));
            }
            k = k + 1;
        }
        proof {
            assert(descs.take(n as int) =~= descs);
            assert(self@ =~= add_spec(orig, descs, start));
            assert forall|i: int, j: int| 0 <= i < j < self@.len() implies self@[i].id
                != self@[j].id by {
                if j >= orig.len() {
                    assert(self@[j].id == start + (j - orig.len()));
                }
                if i >= orig.len() {
                    assert(self@[i].id == start + (i - orig.len()));
                }
            }
        }
    }

    /// Mark the task with id `task_id` complete. With no such id this is a
    /// silent no-op: success either way, no row created or removed.
    pub fn complete_task(&mut self, task_id: usize)
        requires
            old(self).wf(),
        ensures
            final(self).wf(),
            final(self)@ == complete_spec(old(self)@, task_id as nat),
            final(self).next_id == old(self).next_id,
    {
        let ghost orig: Seq<TaskView> = self@;
        let n = self.tasks.len();
        let mut k: usize = 0;
        while k < n
            invariant
                k <= n,
                n == orig.len(),
                self.tasks@.len() == n,
                orig == old(self)@,
                old(self).tasks@.len() == n,
                self.next_id == old(self).next_id,
                forall|i: int| k <= i < n ==> self.tasks@[i] == old(self).tasks@[i],
                forall|i: int| 0 <= i < k ==> self@[i] == complete_spec(orig, task_id as nat)[i],
            decreases n - k,
        {
            let id_matches = self.tasks[k].id == task_id;
            if id_matches {
                self.tasks[k].is_completed = true;
            }
            proof {
                assert(orig[k as int] == old(self).tasks@[k as int]@);
                if id_matches {
                    assert(self.tasks@[k as int]@ == (TaskView {
                        is_completed: true,
                        ..orig[k as int]
                    }));
                } else {
                    assert(self.tasks@[k as int] == old(self).tasks@[k as int]);
                }
                assert(self@[k as int] == complete_spec(orig, task_id as nat)[k as int]);
            }
            k = k + 1;
        }
        proof {
            assert(self@ =~= complete_spec(orig, task_id as nat));
        }
    }

    /// Return exactly the incomplete tasks, in store order.
    pub fn list_tasks(&self) -> (result: Vec<Task>)
        ensures
            result.deep_view() == incomplete_spec(self@),
    {
        let mut result: Vec<Task> = Vec::new();
        let n = self.tasks.len();
        let mut k: usize = 0;
        while k < n
            invariant
                k <= n,
                n == self@.len(),
                result.deep_view() =~= incomplete_spec(self@.take(k as int)),
            decreases n - k,
        {
            let ghost prev: Seq<TaskView> = result.deep_view();
            if !self.tasks[k].is_completed {
                let t = &self.tasks[k];
                result.push(Task::new(t.id, t.description.as_str()));
                proof {
                    assert(self@[k as int] == self.tasks@[k as int]@);
                    assert(result.deep_view() =~= prev.push(self@[k as int]));
                }
            }
            proof {
                reveal(Seq::filter);
                let x = self@[k as int];
                let pre = self@.take(k as int);
                assert(self@.take(k + 1 as int) =~= pre.push(x));
                assert(pre.push(x).drop_last() =~= pre);
                assert(pre.push(x).last() == x);
                assert(incomplete_spec(pre.push(x)) =~= (if !x.is_completed {
                    incomplete_spec(pre).push(x)
                } else {
                    incomplete_spec(pre)
                }));
                assert(result.deep_view() =~= incomplete_spec(self@.take(k + 1 as int)));
            }
            k = k + 1;
        }
        proof {
            assert(self@.take(n as int) =~= self@);
        }
        result
    }

    /// Rebuild the store from persisted rows. Succeeds exactly when the rows
    /// carry pairwise distinct ids with room left above them for a fresh id;
    /// the store then holds the rows unchanged, in the given order.
    pub fn from_rows(rows: Vec<Task>) -> (result: Option<TodoList>)
        ensures
            match result {
                Some(store) => {
                    &&& store.wf()
                    &&& store@ == rows.deep_view()
                    &&& unique_ids(rows.deep_view())
                    &&& forall|i: int| 0 <= i < rows@.len() ==> rows@[i].id < usize::MAX
                },
                None => !(unique_ids(rows.deep_view()) && forall|i: int|
                    0 <= i < rows@.len() ==> rows@[i].id < usize::MAX),
            },
    {
        let n = rows.len();
        let mut next: usize = 1;
        let mut k: usize = 0;
        while k < n
            invariant
                k <= n,
                n == rows@.len(),
                1 <= next,
                forall|i: int, j: int| 0 <= i < j < k ==> rows.deep_view()[i].id
                    != rows.deep_view()[j].id,
                forall|i: int| 0 <= i < k ==> rows.deep_view()[i].id < next,
                forall|i: int| 0 <= i < k ==> rows@[i].id < usize::MAX,
            decreases n - k,
        {
            if rows[k].id == usize::MAX {
                proof {
                    assert(rows@[k as int].id == usize::MAX);
                }
                return None;
            }
            let mut j: usize = 0;
            while j < k
                invariant
                    j <= k < n,
                    n == rows@.len(),
                    forall|i: int| 0 <= i < j ==> rows.deep_view()[i].id
                        != rows.deep_view()[k as int].id,
                decreases k - j,
            {
                if rows[j].id == rows[k].id {
                    proof {
                        assert(rows.deep_view()[j as int].id == rows.deep_view()[k as int].id);
                        assert(!unique_ids(rows.deep_view()));
                    }
                    return None;
                }
                j = j + 1;
            }
            if rows[k].id >= next {
                next = rows[k].id + 1;
            }
            k = k + 1;
        }
        Some(TodoList { tasks: rows, next_id: next })
    }

    /// How many tasks the store holds, complete or not.
    pub fn count(&self) -> (n: usize)
        ensures
            n == self@.len(),
    {
        self.tasks.len()
    }

    /// The task at position `i` in store order.
    pub fn get(&self, i: usize) -> (task: &Task)
        requires
            i < self@.len(),
        ensures
            task@ == self@[i as int],
    {
        &self.tasks[i]
    }
}

/// Uniqueness law: when every existing id lies below the next id to assign,
/// adding any batch of descriptions leaves all ids pairwise distinct, and
/// they stay below the next id the store would assign afterwards. Since a
/// fresh store starts this way and every operation keeps it, ids are
/// pairwise distinct after any sequence of additions.
pub proof fn lemma_add_keeps_ids_unique(s: Seq<TaskView>, descs: Seq<Seq<char>>, next: nat)
    requires
        unique_ids(s),
        ids_below(s, next),
    ensures
        unique_ids(add_spec(s, descs, next)),
        ids_below(add_spec(s, descs, next), next + descs.len()),
{
    let out = add_spec(s, descs, next);
    assert forall|i: int, j: int| 0 <= i < j < out.len() implies out[i].id != out[j].id by {
        if i >= s.len() {
            assert(out[i].id == next + (i - s.len()));
        }
        if j >= s.len() {
            assert(out[j].id == next + (j - s.len()));
        }
    }
}

/// Adding tasks never touches an existing row: the old rows stand unchanged
/// at their old positions.
pub proof fn lemma_add_leaves_existing(s: Seq<TaskView>, descs: Seq<Seq<char>>, next: nat)
    ensures
        add_spec(s, descs, next).len() == s.len() + descs.len(),
        forall|i: int| 0 <= i < s.len() ==> add_spec(s, descs, next)[i] == s[i],
{
}

/// Monotonic completion: a task that is completed stays completed under any
/// completion, whatever id it names; together with the law above, no
/// exposed operation ever resets the flag.
pub proof fn lemma_completion_monotonic(s: Seq<TaskView>, id: nat)
    ensures
        forall|i: int|
            0 <= i < s.len() && s[i].is_completed ==> complete_spec(s, id)[i].is_completed,
{
}

/// Idempotent completion: completing the same id twice leaves the store
/// exactly as completing it once does.
pub proof fn lemma_complete_idempotent(s: Seq<TaskView>, id: nat)
    ensures
        complete_spec(complete_spec(s, id), id) == complete_spec(s, id),
{
    assert(complete_spec(complete_spec(s, id), id) =~= complete_spec(s, id));
}

/// Filter correctness: the listing holds only incomplete tasks, every one of
/// them a task of the store, and every incomplete task of the store appears
/// in the listing.
pub proof fn lemma_incomplete_exact(s: Seq<TaskView>)
    ensures
        forall|i: int|
            0 <= i < incomplete_spec(s).len() ==> !(#[trigger] incomplete_spec(s)[i]).is_completed
                && s.contains(incomplete_spec(s)[i]),
        forall|i: int|
            0 <= i < s.len() && !(#[trigger] s[i]).is_completed ==> incomplete_spec(s).contains(
                s[i],
            ),
    decreases s.len(),
{
    reveal(Seq::filter);
    let out = incomplete_spec(s);
    if s.len() == 0 {
        assert(out =~= Seq::<TaskView>::empty());
    } else {
        let dl = s.drop_last();
        let last = s.last();
        lemma_incomplete_exact(dl);
        let outd = incomplete_spec(dl);
        assert(out == (if !last.is_completed {
            outd.push(last)
        } else {
            outd
        }));
        assert forall|i: int| 0 <= i < out.len() implies !(#[trigger] out[i]).is_completed
            && s.contains(out[i]) by {
            if i < outd.len() {
                assert(out[i] == outd[i]);
                assert(!outd[i].is_completed);
                assert(dl.contains(outd[i]));
                let j = choose|j: int| 0 <= j < dl.len() && dl[j] == outd[i];
                assert(s[j] == outd[i]);
            } else {
                assert(out[i] == last);
                assert(s[s.len() - 1] == last);
            }
        }
        assert forall|i: int| 0 <= i < s.len() && !(#[trigger] s[i]).is_completed implies out.contains(
            s[i],
        ) by {
            if i < s.len() - 1 {
                assert(dl[i] == s[i]);
                assert(outd.contains(dl[i]));
                let j = choose|j: int| 0 <= j < outd.len() && outd[j] == s[i];
                assert(out[j] == s[i]);
            } else {
                assert(s[i] == last);
                assert(out[out.len() - 1] == last);
            }
        }
    }
}

/// Unknown id no-op: completing an id that no task carries returns the store
/// unchanged — no row is created, removed or altered.
pub proof fn lemma_complete_unknown_id(s: Seq<TaskView>, id: nat)
    requires
        forall|i: int| 0 <= i < s.len() ==> s[i].id != id,
    ensures
        complete_spec(s, id) == s,
{
    assert(complete_spec(s, id) =~= s);
}

} // verus!
