//! A list of tasks.

use vstd::prelude::*;

verus! {

/// One task.
#[derive(Debug, PartialEq, Eq)]
pub struct Task {
    pub id: usize,
    pub description: String,
    pub done: bool,
}

/// What a task is, as plain values.
pub struct TaskView {
    pub id: usize,
    pub description: Seq<char>,
    pub done: bool,
}

impl View for Task {
    type V = TaskView;

    open spec fn view(&self) -> TaskView {
        TaskView { id: self.id, description: self.description@, done: self.done }
    }
}

impl TaskView {
    /// The same task once it is done.
    pub open spec fn finished(self) -> TaskView {
        TaskView { id: self.id, description: self.description, done: true }
    }

    /// How the state of a task is shown in a listing.
    pub open spec fn status(self) -> Seq<char> {
        if self.done {
            seq!['[', 'D', 'o', 'n', 'e', ']']
        } else {
            seq!['[', 'P', 'e', 'n', 'd', 'i', 'n', 'g', ']']
        }
    }
}

/// The views of the tasks in `tasks`.
pub open spec fn views(tasks: Seq<Task>) -> Seq<TaskView> {
    tasks.map_values(|t: Task| t@)
}

/// Whether a task of `tasks` has the number `id`.
pub open spec fn has_id(tasks: Seq<TaskView>, id: usize) -> bool {
    exists|i: int| 0 <= i < tasks.len() && #[trigger] tasks[i].id == id
}

/// Where the first task with the number `id` stands, or the length of
/// `tasks` if there is none.
pub open spec fn first_with_id(tasks: Seq<TaskView>, id: usize) -> int
    decreases tasks.len(),
{
    if tasks.len() == 0 {
        0
    } else if tasks[0].id == id {
        0
    } else {
        1 + first_with_id(tasks.skip(1), id)
    }
}

/// `tasks` with the first task of the number `id` done, if there is one.
pub open spec fn marked_done(tasks: Seq<TaskView>, id: usize) -> Seq<TaskView> {
    let i = first_with_id(tasks, id);
    if i < tasks.len() {
        tasks.update(i, tasks[i].finished())
    } else {
        tasks
    }
}

/// `tasks` without those of the number `id`, the others in their order.
pub open spec fn without(tasks: Seq<TaskView>, id: usize) -> Seq<TaskView> {
    tasks.filter(|t: TaskView| t.id != id)
}

/// The first task with the number `id` is where `first_with_id` says, and
/// none stands before it.
pub proof fn lemma_first_with_id(tasks: Seq<TaskView>, id: usize)
    ensures
        0 <= first_with_id(tasks, id) <= tasks.len(),
        first_with_id(tasks, id) < tasks.len() ==> tasks[first_with_id(tasks, id)].id == id,
        forall|i: int| 0 <= i < first_with_id(tasks, id) ==> (#[trigger] tasks[i]).id != id,
        has_id(tasks, id) <==> first_with_id(tasks, id) < tasks.len(),
    decreases tasks.len(),
{
    if tasks.len() > 0 && tasks[0].id != id {
        let rest = tasks.skip(1);
        lemma_first_with_id(rest, id);
        let f = first_with_id(rest, id);
        assert forall|i: int| 0 <= i < 1 + f implies (#[trigger] tasks[i]).id != id by {
            if i > 0 {
                assert(tasks[i] == rest[i - 1]);
            }
        }
        if f < rest.len() {
            assert(tasks[1 + f] == rest[f]);
        }
        if has_id(tasks, id) {
            let i = choose|i: int| 0 <= i < tasks.len() && #[trigger] tasks[i].id == id;
            assert(rest[i - 1] == tasks[i]);
        }
    }
}

impl Task {
    /// How the state of a task is shown in a listing: `[Done]` or
    /// `[Pending]`.
    pub fn status(&self) -> (r: &'static str)
        ensures
            r@ == self@.status(),
    {
        proof {
            reveal_strlit("[Done]");
            reveal_strlit("[Pending]");
            assert("[Done]"@ =~= seq!['[', 'D', 'o', 'n', 'e', ']']);
            assert("[Pending]"@ =~= seq!['[', 'P', 'e', 'n', 'd', 'i', 'n', 'g', ']']);
        }
        if self.done {
            "[Done]"
        } else {
            "[Pending]"
        }
    }
}

/// Adds a task that is not done: its number is one more than the number of
/// tasks there were.
pub fn add_task(tasks: &mut Vec<Task>, description: String)
    requires
        old(tasks).len() < usize::MAX,
    ensures
        views(final(tasks)@) == views(old(tasks)@).push(
            TaskView {
                id: (old(tasks).len() + 1) as usize,
                description: description@,
                done: false,
            },
        ),
{
    let id = tasks.len() + 1;
    let ghost text = description@;
    tasks.push(Task { id, description, done: false });
    assert(views(tasks@) =~= views(old(tasks)@).push(
        TaskView { id, description: text, done: false },
    ));
}

/// Marks the first task of the number `id` as done, and tells whether there
/// was one.
pub fn mark_done(tasks: &mut Vec<Task>, id: usize) -> (r: bool)
    ensures
        r == has_id(views(old(tasks)@), id),
        views(final(tasks)@) == marked_done(views(old(tasks)@), id),
{
    let mut i: usize = 0;
    while i < tasks.len()
        invariant
            i <= tasks.len(),
            tasks@ == old(tasks)@,
            forall|k: int| 0 <= k < i ==> (#[trigger] views(tasks@)[k]).id != id,
        decreases tasks.len() - i,
    {
        if tasks[i].id == id {
            let ghost all = views(tasks@);
            assert(all[i as int].id == id);
            assert(first_with_id(all, id) == i) by {
                lemma_first_with_id(all, id);
                let f = first_with_id(all, id);
                if f < i {
                    assert(all[f].id != id);
                }
            }
            let mut task = tasks.remove(i);
            task.done = true;
            tasks.insert(i, task);
            assert(tasks@ =~= old(tasks)@.update(i as int, task));
            assert(views(tasks@) =~= all.update(i as int, all[i as int].finished()));
            return true;
        }
        assert(views(tasks@)[i as int].id != id);
        i = i + 1;
    }
    proof {
        lemma_first_with_id(views(tasks@), id);
    }
    false
}

/// Removes every task of the number `id`, and tells whether there was one.
pub fn remove_task(tasks: &mut Vec<Task>, id: usize) -> (r: bool)
    ensures
        r == has_id(views(old(tasks)@), id),
        views(final(tasks)@) == without(views(old(tasks)@), id),
{
    let ghost all = views(tasks@);
    let ghost keep = |t: TaskView| t.id != id;
    let mut found = false;
    let mut i: usize = 0;
    let ghost mut seen: int = 0;
    proof {
        assert(all.take(0) =~= Seq::<TaskView>::empty());
        assert(all.skip(0) =~= all);
        reveal(Seq::filter);
        assert(all.take(0).filter(keep) =~= Seq::<TaskView>::empty());
    }
    while i < tasks.len()
        invariant
            all == views(old(tasks)@),
            keep == |t: TaskView| t.id != id,
            0 <= seen <= all.len(),
            i <= tasks.len(),
            i == all.take(seen).filter(keep).len(),
            views(tasks@) == all.take(seen).filter(keep) + all.skip(seen),
            found == has_id(all.take(seen), id),
        decreases tasks.len() - i,
    {
        proof {
            reveal(Seq::filter);
            assert(all.take(seen + 1).drop_last() =~= all.take(seen));
            assert(views(tasks@)[i as int] == all[seen]);
            assert(all.take(seen + 1).last() == all[seen]);
            assert(all.skip(seen).skip(1) =~= all.skip(seen + 1));
            assert(all.take(seen + 1).filter(keep) == if keep(all[seen]) {
                all.take(seen).filter(keep).push(all[seen])
            } else {
                all.take(seen).filter(keep)
            });
            if has_id(all.take(seen + 1), id) && all[seen].id != id {
                let k = choose|k: int|
                    0 <= k < all.take(seen + 1).len() && #[trigger] all.take(seen + 1)[k].id == id;
                assert(all.take(seen)[k].id == id);
            }
            if has_id(all.take(seen), id) {
                let k = choose|k: int|
                    0 <= k < all.take(seen).len() && #[trigger] all.take(seen)[k].id == id;
                assert(all.take(seen + 1)[k].id == id);
            }
        }
        if tasks[i].id == id {
            let ghost before = tasks@;
            tasks.remove(i);
            found = true;
            proof {
                assert(all.take(seen + 1)[seen].id == id);
                assert(views(tasks@) =~= views(before).remove(i as int));
                assert(views(tasks@) =~= all.take(seen + 1).filter(keep) + all.skip(seen + 1));
                seen = seen + 1;
            }
        } else {
            proof {
                assert(views(tasks@) =~= all.take(seen + 1).filter(keep) + all.skip(seen + 1));
                seen = seen + 1;
            }
            i = i + 1;
        }
    }
    proof {
        assert(all.skip(seen).len() == 0);
        assert(all.take(seen) =~= all);
        assert(views(tasks@) =~= without(all, id));
    }
    found
}

} // verus!
