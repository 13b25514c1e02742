use crate::task::{Task, TaskView};
use vstd::prelude::*;

verus! {

broadcast use Seq::lemma_push_map_commute;

/// The abstract state of a task store: the rows of the table, in storage
/// order, and the id that the next insertion will receive.
#[verifier::ext_equal]
pub ghost struct StoreView {
    pub rows: Seq<TaskView>,
    pub next_id: int,
}

impl StoreView {
    /// Well-formedness: ids are positive, below `next_id`, and pairwise
    /// distinct.
    pub open spec fn wf(self) -> bool {
        &&& 1 <= self.next_id
        &&& forall|i: int|
            0 <= i < self.rows.len() ==> 1 <= #[trigger] self.rows[i].id < self.next_id
        &&& forall|i: int, j: int|
            0 <= i < j < self.rows.len() ==> self.rows[i].id != self.rows[j].id
    }

    /// Whether some row carries the given id.
    pub open spec fn contains_id(self, id: int) -> bool {
        exists|i: int| 0 <= i < self.rows.len() && #[trigger] self.rows[i].id == id
    }

    /// The state after inserting a task: one row is appended, carrying the
    /// store-assigned id `next_id`, and `next_id` advances.
    pub open spec fn inserted(self, title: Seq<char>, tag: Seq<char>, status: Seq<char>) -> StoreView {
        StoreView {
            rows: self.rows.push(TaskView { id: self.next_id, title, tag, status }),
            next_id: self.next_id + 1,
        }
    }

    /// The state after updating a status: every row whose id matches gets the
    /// new status, all other fields and rows are untouched. With pairwise
    /// distinct ids at most one row changes; with no matching id, none does.
    pub open spec fn status_updated(self, id: int, status: Seq<char>) -> StoreView {
        StoreView {
            rows: self.rows.map_values(
                |t: TaskView|
                    if t.id == id {
                        TaskView { id: t.id, title: t.title, tag: t.tag, status }
                    } else {
                        t
                    },
            ),
            next_id: self.next_id,
        }
    }

    /// The state after a delete: every row whose id matches is dropped, the
    /// rest keep their order. With pairwise distinct ids at most one row is
    /// dropped; with no matching id, none is.
    pub open spec fn deleted(self, id: int) -> StoreView {
        StoreView { rows: rows_without(self.rows, id), next_id: self.next_id }
    }
}

/// The rows of `rows` whose id differs from `id`, in their original order.
pub open spec fn rows_without(rows: Seq<TaskView>, id: int) -> Seq<TaskView>
    decreases rows.len(),
{
    if rows.len() == 0 {
        Seq::empty()
    } else if rows.last().id == id {
        rows_without(rows.drop_last(), id)
    } else {
        rows_without(rows.drop_last(), id).push(rows.last())
    }
}

/// When no row carries `id`, dropping the rows that carry it changes nothing.
pub proof fn lemma_rows_without_no_match(rows: Seq<TaskView>, id: int)
    requires
        forall|i: int| 0 <= i < rows.len() ==> #[trigger] rows[i].id != id,
    ensures
        rows_without(rows, id) == rows,
    decreases rows.len(),
{
    if rows.len() > 0 {
        lemma_rows_without_no_match(rows.drop_last(), id);
        assert(rows_without(rows, id) =~= rows);
    } else {
        assert(rows_without(rows, id) =~= rows);
    }
}

/// When exactly the row at index `i` carries `id`, dropping the rows that
/// carry it removes that row alone.
pub proof fn lemma_rows_without_single_match(rows: Seq<TaskView>, id: int, i: int)
    requires
        0 <= i < rows.len(),
        rows[i].id == id,
        forall|j: int| 0 <= j < rows.len() && j != i ==> #[trigger] rows[j].id != id,
    ensures
        rows_without(rows, id) == rows.remove(i),
    decreases rows.len(),
{
    if i == rows.len() - 1 {
        lemma_rows_without_no_match(rows.drop_last(), id);
        assert(rows_without(rows, id) =~= rows.remove(i));
    } else {
        lemma_rows_without_single_match(rows.drop_last(), id, i);
        assert(rows_without(rows, id) =~= rows.remove(i));
    }
}

/// Whether `rows` could have been produced by this store: ids positive,
/// pairwise distinct, and small enough that a fresh id can still be assigned.
pub open spec fn rows_wf(rows: Seq<TaskView>) -> bool {
    &&& forall|i: int| 0 <= i < rows.len() ==> 1 <= (#[trigger] rows[i].id) && rows[i].id
        < i32::MAX
    &&& forall|i: int, j: int| 0 <= i < j < rows.len() ==> rows[i].id != rows[j].id
}

/// The id a store rebuilt from `rows` assigns next: one past the largest id
/// present, or 1 when there are no rows.
pub open spec fn next_id_after(rows: Seq<TaskView>) -> int
    decreases rows.len(),
{
    if rows.len() == 0 {
        1
    } else {
        let rest = next_id_after(rows.drop_last());
        if rows.last().id + 1 > rest {
            rows.last().id + 1
        } else {
            rest
        }
    }
}

/// The verified task store. It owns the rows of the table and the counter
/// from which it assigns ids; its abstract value is a `StoreView`.
pub struct TaskStore {
    tasks: Vec<Task>,
    next_id: i32,
}

impl View for TaskStore {
    type V = StoreView;

    closed spec fn view(&self) -> StoreView {
        StoreView {
            rows: self.tasks@.map_values(|t: Task| t@),
            next_id: self.next_id as int,
        }
    }
}

impl TaskStore {
    /// Holds of every `TaskStore` at all times: the abstract state is
    /// well-formed. `use_type_invariant` makes it available to callers.
    #[verifier::type_invariant]
    pub open spec fn inv(self) -> bool {
        self@.wf()
    }

    /// A store with no rows; the first inserted task will receive id 1.
    pub fn new() -> (s: TaskStore)
        ensures
            s@.rows.len() == 0,
            s@.next_id == 1,
    {
        let s = TaskStore { tasks: Vec::new(), next_id: 1 };
        proof {
            assert(s@.rows =~= Seq::<TaskView>::empty());
        }
        s
    }

    /// The id the next insertion will receive. Ids grow by one per insertion,
    /// so a caller can check against `i32::MAX` before inserting.
    pub fn next_id(&self) -> (n: i32)
        ensures
            n == self@.next_id,
    {
        self.next_id
    }

    /// Inserts one task. The store assigns the id: the input task's `id`
    /// field is ignored, and the assigned id, returned for convenience, is
    /// distinct from the id of every row already present.
    pub fn insert_task(&mut self, task: &Task) -> (id: i32)
        requires
            old(self)@.next_id < i32::MAX,
        ensures
            final(self)@ == old(self)@.inserted(task@.title, task@.tag, task@.status),
            id == old(self)@.next_id,
            !old(self)@.contains_id(id as int),
    {
        proof {
            use_type_invariant(&*self);
        }
        let ghost pre = self@;
        let id = self.next_id;
        let row = Task {
            id,
            title: task.title.clone(),
            tag: task.tag.clone(),
            status: task.status.clone(),
        };
        let mut tasks: Vec<Task> = Vec::new();
        core::mem::swap(&mut tasks, &mut self.tasks);
        tasks.push(row);
        self.next_id = id + 1;
        proof {
            assert(tasks@.map_values(|t: Task| t@) =~= pre.rows.push(
                (TaskView { id: id as int, title: task@.title, tag: task@.tag, status: task@.status }),
            ));
        }
        self.tasks = tasks;
        proof {
            assert(self@ =~= pre.inserted(task@.title, task@.tag, task@.status));
        }
        id
    }

    /// Every row currently in the store, in storage order.
    pub fn get_all_tasks(&self) -> (r: Vec<Task>)
        ensures
            r@.map_values(|t: Task| t@) == self@.rows,
    {
        let mut r: Vec<Task> = Vec::new();
        let n = self.tasks.len();
        let mut i: usize = 0;
        while i < n
            invariant
                n == self.tasks.len(),
                i <= n,
                r@.map_values(|t: Task| t@) =~= self@.rows.subrange(0, i as int),
            decreases n - i,
        {
            r.push(self.tasks[i].clone());
            proof {
                assert(r@.map_values(|t: Task| t@) =~= self@.rows.subrange(0, i as int + 1));
            }
            i += 1;
        }
        proof {
            assert(self@.rows.subrange(0, n as int) =~= self@.rows);
        }
        r
    }

    /// Sets the status of the row carrying `id`. When no row carries it, the
    /// call succeeds and changes nothing: the caller cannot distinguish
    /// "updated" from "no such task" here.
    pub fn update_task_status(&mut self, id: i32, new_status: &str)
        ensures
            final(self)@ == old(self)@.status_updated(id as int, new_status@),
    {
        proof {
            use_type_invariant(&*self);
        }
        let ghost pre = self@;
        let n = self.tasks.len();
        let mut i: usize = 0;
        while i < n
            invariant
                n == self.tasks.len(),
                i <= n,
                self == old(self),
                pre == self@,
                pre.wf(),
                forall|j: int| 0 <= j < i ==> #[trigger] pre.rows[j].id != id as int,
            decreases n - i,
        {
            if self.tasks[i].id == id {
                proof {
                    assert(pre.rows[i as int].id == id as int);
                }
                let mut tasks: Vec<Task> = Vec::new();
                core::mem::swap(&mut tasks, &mut self.tasks);
                let t = tasks.remove(i);
                tasks.insert(
                    i,
                    Task { id: t.id, title: t.title, tag: t.tag, status: new_status.to_owned() },
                );
                proof {
                    let post_rows = tasks@.map_values(|t: Task| t@);
                    assert forall|j: int| 0 <= j < pre.rows.len() implies post_rows[j]
                        == pre.status_updated(id as int, new_status@).rows[j] by {
                        if j != i {
                            if j < i {
                                assert(pre.rows[j].id != pre.rows[i as int].id);
                            } else {
                                assert(pre.rows[i as int].id != pre.rows[j].id);
                            }
                        }
                    }
                    assert(post_rows =~= pre.status_updated(id as int, new_status@).rows);
                    assert forall|j: int| 0 <= j < post_rows.len() implies 1 <= (
                    #[trigger] post_rows[j]).id < pre.next_id by {
                        assert(post_rows[j].id == pre.rows[j].id);
                    }
                }
                self.tasks = tasks;
                proof {
                    assert(self@ =~= pre.status_updated(id as int, new_status@));
                }
                return ;
            }
            i += 1;
        }
        proof {
            assert(self@ =~= pre.status_updated(id as int, new_status@));
        }
    }

    /// Rebuilds a store from rows read back from storage. Returns `None`
    /// exactly when the rows could not have come from this store: some id
    /// outside `1..i32::MAX`, or two rows sharing an id.
    pub fn from_rows(rows: Vec<Task>) -> (r: Option<TaskStore>)
        ensures
            match r {
                Some(s) => {
                    &&& rows_wf(rows@.map_values(|t: Task| t@))
                    &&& s@.rows == rows@.map_values(|t: Task| t@)
                    &&& s@.next_id == next_id_after(rows@.map_values(|t: Task| t@))
                },
                None => !rows_wf(rows@.map_values(|t: Task| t@)),
            },
    {
        let ghost vrows = rows@.map_values(|t: Task| t@);
        let n = rows.len();
        let mut next: i32 = 1;
        let mut i: usize = 0;
        while i < n
            invariant
                n == rows.len(),
                i <= n,
                vrows == rows@.map_values(|t: Task| t@),
                1 <= next,
                next as int == next_id_after(vrows.subrange(0, i as int)),
                forall|k: int|
                    0 <= k < i ==> 1 <= (#[trigger] vrows[k].id) && vrows[k].id < i32::MAX,
                forall|k: int, l: int| 0 <= k < l < i ==> vrows[k].id != vrows[l].id,
                forall|k: int| 0 <= k < i ==> (#[trigger] vrows[k].id) < next,
            decreases n - i,
        {
            let id = rows[i].id;
            proof {
                assert(vrows[i as int].id == id as int);
            }
            if id < 1 || id == i32::MAX {
                return None;
            }
            let mut j: usize = 0;
            while j < i
                invariant
                    n == rows.len(),
                    j <= i < n,
                    vrows == rows@.map_values(|t: Task| t@),
                    id as int == vrows[i as int].id,
                    forall|k: int| 0 <= k < j ==> (#[trigger] vrows[k].id) != id as int,
                decreases i - j,
            {
                if rows[j].id == id {
                    proof {
                        assert(vrows[j as int].id == vrows[i as int].id);
                    }
                    return None;
                }
                j += 1;
            }
            if id >= next {
                next = id + 1;
            }
            proof {
                assert(vrows.subrange(0, i as int + 1).drop_last() =~= vrows.subrange(
                    0,
                    i as int,
                ));
                assert(vrows.subrange(0, i as int + 1).last() == vrows[i as int]);
            }
            i += 1;
        }
        proof {
            assert(vrows.subrange(0, n as int) =~= vrows);
        }
        let s = TaskStore { tasks: rows, next_id: next };
        Some(s)
    }

    /// Removes the row carrying `id`. When no row carries it, the call
    /// succeeds and changes nothing.
    pub fn delete_task(&mut self, id: i32)
        ensures
            final(self)@ == old(self)@.deleted(id as int),
    {
        proof {
            use_type_invariant(&*self);
        }
        let ghost pre = self@;
        let n = self.tasks.len();
        let mut i: usize = 0;
        while i < n
            invariant
                n == self.tasks.len(),
                i <= n,
                self == old(self),
                pre == self@,
                pre.wf(),
                forall|j: int| 0 <= j < i ==> #[trigger] pre.rows[j].id != id as int,
            decreases n - i,
        {
            if self.tasks[i].id == id {
                proof {
                    assert(pre.rows[i as int].id == id as int);
                }
                let mut tasks: Vec<Task> = Vec::new();
                core::mem::swap(&mut tasks, &mut self.tasks);
                let _ = tasks.remove(i);
                proof {
                    assert(tasks@.map_values(|t: Task| t@) =~= pre.rows.remove(i as int));
                    assert forall|j: int| 0 <= j < pre.rows.len() && j != i implies (
                    #[trigger] pre.rows[j]).id != id as int by {
                        if j < i {
                            assert(pre.rows[j].id != pre.rows[i as int].id);
                        } else {
                            assert(pre.rows[i as int].id != pre.rows[j].id);
                        }
                    }
                    lemma_rows_without_single_match(pre.rows, id as int, i as int);
                }
                self.tasks = tasks;
                proof {
                    assert(self@ =~= pre.deleted(id as int));
                }
                return ;
            }
            i += 1;
        }
        proof {
            lemma_rows_without_no_match(pre.rows, id as int);
            assert(self@ =~= pre.deleted(id as int));
        }
    }
}

/// Inserting a task and then listing all rows yields the prior rows followed
/// by one new row carrying the given fields and a fresh id distinct from the
/// id of every prior row; well-formedness is preserved.
pub proof fn lemma_insert_then_list(
    s: StoreView,
    title: Seq<char>,
    tag: Seq<char>,
    status: Seq<char>,
)
    requires
        s.wf(),
    ensures
        s.inserted(title, tag, status).rows.len() == s.rows.len() + 1,
        s.inserted(title, tag, status).rows.last() == (TaskView {
            id: s.next_id,
            title,
            tag,
            status,
        }),
        forall|i: int|
            0 <= i < s.rows.len() ==> #[trigger] s.inserted(title, tag, status).rows[i]
                == s.rows[i],
        forall|i: int| 0 <= i < s.rows.len() ==> (#[trigger] s.rows[i].id) != s.next_id,
        s.inserted(title, tag, status).wf(),
{
}

/// Updating the status of an id changes at most the one row carrying it, and
/// of that row only the status; every other row, and every other field, is
/// unchanged, as is the id the next insertion will receive.
pub proof fn lemma_update_changes_only_status(s: StoreView, id: int, status: Seq<char>)
    requires
        s.wf(),
    ensures
        s.status_updated(id, status).rows.len() == s.rows.len(),
        s.status_updated(id, status).next_id == s.next_id,
        forall|i: int|
            0 <= i < s.rows.len() && s.rows[i].id == id
                ==> #[trigger] s.status_updated(id, status).rows[i] == (TaskView {
                id: s.rows[i].id,
                title: s.rows[i].title,
                tag: s.rows[i].tag,
                status,
            }),
        forall|i: int|
            0 <= i < s.rows.len() && s.rows[i].id != id
                ==> #[trigger] s.status_updated(id, status).rows[i] == s.rows[i],
        s.status_updated(id, status).wf(),
{
}

/// Updating the status of an id that no row carries succeeds and changes
/// nothing: a silent no-op.
pub proof fn lemma_update_missing_id_noop(s: StoreView, id: int, status: Seq<char>)
    requires
        !s.contains_id(id),
    ensures
        s.status_updated(id, status) == s,
{
    assert(s.status_updated(id, status).rows =~= s.rows);
    assert(s.status_updated(id, status) =~= s);
}

/// Deleting an id that some row carries removes exactly one row: the result
/// has one row fewer, no longer contains that id, and contains exactly the
/// other ids; well-formedness is preserved.
pub proof fn lemma_delete_removes_id(s: StoreView, id: int)
    requires
        s.wf(),
        s.contains_id(id),
    ensures
        s.deleted(id).rows.len() == s.rows.len() - 1,
        !s.deleted(id).contains_id(id),
        forall|x: int| x != id ==> (s.deleted(id).contains_id(x) <==> s.contains_id(x)),
        s.deleted(id).wf(),
{
    let i = choose|i: int| 0 <= i < s.rows.len() && #[trigger] s.rows[i].id == id;
    assert forall|j: int| 0 <= j < s.rows.len() && j != i implies (#[trigger] s.rows[j]).id
        != id by {
        if j < i {
            assert(s.rows[j].id != s.rows[i].id);
        } else {
            assert(s.rows[i].id != s.rows[j].id);
        }
    }
    lemma_rows_without_single_match(s.rows, id, i);
    let d = s.deleted(id);
    assert forall|k: int| 0 <= k < d.rows.len() implies (#[trigger] d.rows[k]).id != id by {
        if k < i {
            assert(d.rows[k] == s.rows[k]);
        } else {
            assert(d.rows[k] == s.rows[k + 1]);
        }
    }
    assert forall|x: int| x != id implies (d.contains_id(x) <==> s.contains_id(x)) by {
        if s.contains_id(x) {
            let j = choose|j: int| 0 <= j < s.rows.len() && #[trigger] s.rows[j].id == x;
            if j < i {
                assert(d.rows[j].id == x);
            } else {
                assert(j != i);
                assert(d.rows[j - 1].id == x);
            }
        }
        if d.contains_id(x) {
            let k = choose|k: int| 0 <= k < d.rows.len() && #[trigger] d.rows[k].id == x;
            if k < i {
                assert(s.rows[k].id == x);
            } else {
                assert(s.rows[k + 1].id == x);
            }
        }
    }
    assert forall|k1: int, k2: int| 0 <= k1 < k2 < d.rows.len() implies d.rows[k1].id
        != d.rows[k2].id by {
        let m1: int = if k1 < i {
            k1
        } else {
            k1 + 1
        };
        let m2: int = if k2 < i {
            k2
        } else {
            k2 + 1
        };
        assert(d.rows[k1] == s.rows[m1]);
        assert(d.rows[k2] == s.rows[m2]);
        assert(s.rows[m1].id != s.rows[m2].id);
    }
}

/// Deleting an id that no row carries succeeds and changes nothing: a silent
/// no-op.
pub proof fn lemma_delete_missing_id_noop(s: StoreView, id: int)
    requires
        !s.contains_id(id),
    ensures
        s.deleted(id) == s,
{
    lemma_rows_without_no_match(s.rows, id);
    assert(s.deleted(id) =~= s);
}

} // verus!
