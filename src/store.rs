//! The task store: a `Vec<Task>` whose ids are kept dense (1..N, in order).
use vstd::prelude::*;

verus! {

/// One to-do item.
#[derive(Debug, Clone, PartialEq, Eq)]
pub struct Task {
    pub id: usize,
    pub description: String,
    pub done: bool,
}

/// Ids run 1..N in sequence order: no gaps, no duplicates, ascending.
pub open spec fn ids_dense(tasks: Seq<Task>) -> bool {
    forall|i: int| 0 <= i < tasks.len() ==> (#[trigger] tasks[i]).id == i + 1
}

/// The task `t` with its completion flag set.
pub open spec fn marked_done(t: Task) -> Task {
    Task { id: t.id, description: t.description, done: true }
}

/// Appends a new, not yet done task whose id is one past the current size.
pub fn add_task(tasks: &mut Vec<Task>, description: String)
    requires
        old(tasks).len() < usize::MAX,
    ensures
        final(tasks)@ == old(tasks)@.push(
            (Task { id: (old(tasks).len() + 1) as usize, description, done: false }),
        ),
        ids_dense(old(tasks)@) ==> ids_dense(final(tasks)@),
{
    let id: usize = tasks.len() + 1;
    let t = Task { id, description, done: false };
    tasks.push(t);
    assert(forall|i: int| 0 <= i < old(tasks)@.len() ==> tasks@[i] == old(tasks)@[i]);
}

/// Some task of `tasks` carries `id`.
pub open spec fn has_id(tasks: Seq<Task>, id: usize) -> bool {
    exists|i: int| 0 <= i < tasks.len() && (#[trigger] tasks[i]).id == id
}

/// `i` is the first position whose task carries `id`.
pub open spec fn first_with_id(tasks: Seq<Task>, id: usize, i: int) -> bool {
    &&& 0 <= i < tasks.len()
    &&& tasks[i].id == id
    &&& forall|j: int| 0 <= j < i ==> (#[trigger] tasks[j]).id != id
}

/// `tasks` with the first task that carries `id`, if any, marked done.
pub open spec fn completed(tasks: Seq<Task>, id: usize) -> Seq<Task> {
    if has_id(tasks, id) {
        let i = choose|i: int| first_with_id(tasks, id, i);
        tasks.update(i, marked_done(tasks[i]))
    } else {
        tasks
    }
}

/// Marks the first task carrying `id` as done and returns true; returns false,
/// changing nothing, when no task carries `id`.
pub fn complete_task(tasks: &mut Vec<Task>, id: usize) -> (r: bool)
    ensures
        r == has_id(old(tasks)@, id),
        final(tasks)@ == completed(old(tasks)@, id),
        final(tasks)@.len() == old(tasks)@.len(),
        ids_dense(old(tasks)@) ==> ids_dense(final(tasks)@),
        ids_dense(old(tasks)@) ==> (r <==> 1 <= id <= old(tasks).len()),
        ids_dense(old(tasks)@) && r ==> final(tasks)@[id - 1].done,
{
    proof {
        if ids_dense(tasks@) {
            dense_ids_are_one_to_size(tasks@);
            completing_twice(tasks@, id);
        }
    }
    let n = tasks.len();
    let mut i: usize = 0;
    while i < n
        invariant
            n == tasks.len(),
            i <= n,
            tasks@ == old(tasks)@,
            forall|j: int| 0 <= j < i ==> (#[trigger] tasks@[j]).id != id,
        decreases n - i,
    {
        if tasks[i].id == id {
            tasks[i].done = true;
            assert(first_with_id(old(tasks)@, id, i as int));
            assert(tasks@ == completed(old(tasks)@, id));
            return true;
        }
        i += 1;
    }
    false
}

/// The tasks of `s`, in order, with ids reassigned from their positions.
pub open spec fn renumbered(s: Seq<Task>) -> Seq<Task> {
    Seq::new(
        s.len(),
        |i: int| Task { id: (i + 1) as usize, description: s[i].description, done: s[i].done },
    )
}

/// Removes the task at position `id` (counting from 1) and renumbers every
/// task from its position; returns false, changing nothing, when `id` is 0
/// or beyond the size of the store.
pub fn remove_task(tasks: &mut Vec<Task>, id: usize) -> (r: bool)
    ensures
        r == (1 <= id <= old(tasks).len()),
        r ==> final(tasks)@ == renumbered(old(tasks)@.remove(id - 1)),
        !r ==> final(tasks)@ == old(tasks)@,
        r ==> ids_dense(final(tasks)@),
        ids_dense(old(tasks)@) ==> ids_dense(final(tasks)@),
{
    if id == 0 || id > tasks.len() {
        return false;
    }
    tasks.remove(id - 1);
    let ghost rest = tasks@;
    let n = tasks.len();
    let mut i: usize = 0;
    while i < n
        invariant
            n == tasks.len(),
            n == rest.len(),
            rest == old(tasks)@.remove(id - 1),
            i <= n,
            forall|j: int| 0 <= j < i ==> #[trigger] tasks@[j] == renumbered(rest)[j],
            forall|j: int| i <= j < n ==> #[trigger] tasks@[j] == rest[j],
        decreases n - i,
    {
        tasks[i].id = i + 1;
        i += 1;
    }
    assert(tasks@ =~= renumbered(rest));
    true
}

/// The ids that occur in `tasks`.
pub open spec fn id_set(tasks: Seq<Task>) -> Set<int> {
    Set::new(|n: int| exists|i: int| 0 <= i < tasks.len() && (#[trigger] tasks[i]).id == n)
}

/// In a store whose ids are dense, the ids are exactly 1..=N, and an id
/// belongs to a task exactly when it lies in that range.
pub proof fn dense_ids_are_one_to_size(tasks: Seq<Task>)
    requires
        ids_dense(tasks),
    ensures
        id_set(tasks) == Set::new(|n: int| 1 <= n <= tasks.len()),
        forall|id: usize| has_id(tasks, id) <==> 1 <= id <= tasks.len(),
{
    assert forall|n: int| 1 <= n <= tasks.len() implies id_set(tasks).contains(n) by {
        assert(tasks[n - 1].id == n);
    }
    assert(id_set(tasks) =~= Set::new(|n: int| 1 <= n <= tasks.len()));
    assert forall|id: usize| 1 <= id <= tasks.len() implies has_id(tasks, id) by {
        assert(tasks[id - 1].id == id);
    }
}

/// A store whose ids are dense lists its tasks in strictly ascending id order.
pub proof fn dense_ids_ascend(tasks: Seq<Task>)
    requires
        ids_dense(tasks),
    ensures
        forall|i: int, j: int| 0 <= i < j < tasks.len() ==> tasks[i].id < tasks[j].id,
{
}

proof fn lemma_first_exists(tasks: Seq<Task>, id: usize, k: int)
    requires
        0 <= k < tasks.len(),
        tasks[k].id == id,
    ensures
        exists|i: int| first_with_id(tasks, id, i),
    decreases k,
{
    if exists|j: int| 0 <= j < k && (#[trigger] tasks[j]).id == id {
        let j = choose|j: int| 0 <= j < k && (#[trigger] tasks[j]).id == id;
        lemma_first_exists(tasks, id, j);
    } else {
        assert(first_with_id(tasks, id, k));
    }
}

/// Completing an id a second time succeeds exactly when the first time did
/// and changes nothing more; an id no task carries leaves the store as it
/// was; in a dense store, the task at that id is then done.
pub proof fn completing_twice(tasks: Seq<Task>, id: usize)
    ensures
        has_id(completed(tasks, id), id) == has_id(tasks, id),
        completed(completed(tasks, id), id) == completed(tasks, id),
        !has_id(tasks, id) ==> completed(tasks, id) == tasks,
        ids_dense(tasks) && 1 <= id <= tasks.len() ==> completed(tasks, id)[id - 1].done,
{
    if has_id(tasks, id) {
        let k = choose|k: int| 0 <= k < tasks.len() && (#[trigger] tasks[k]).id == id;
        lemma_first_exists(tasks, id, k);
        let i = choose|i: int| first_with_id(tasks, id, i);
        let c = completed(tasks, id);
        assert(c == tasks.update(i, marked_done(tasks[i])));
        assert(first_with_id(c, id, i));
        assert(has_id(c, id));
        assert(c.update(i, marked_done(c[i])) =~= c);
        if ids_dense(tasks) && 1 <= id <= tasks.len() {
            assert(first_with_id(tasks, id, id - 1));
        }
    }
}

} // verus!
