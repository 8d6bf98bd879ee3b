use vstd::prelude::*;

verus! {

/// One entry of the todo list.
#[derive(Debug)]
pub struct Task {
    pub id: usize,
    pub description: String,
    pub done: bool,
}

/// An ordered list of tasks.
#[derive(Debug)]
pub struct TodoList {
    pub tasks: Vec<Task>,
}

/// The id that the next added task gets: one past the last task's, or 1.
pub open spec fn next_id(tasks: Seq<Task>) -> int {
    if tasks.len() == 0 {
        1
    } else {
        tasks.last().id + 1
    }
}

/// Whether some task carries `id`.
pub open spec fn has_id(tasks: Seq<Task>, id: usize) -> bool {
    exists|j: int| 0 <= j < tasks.len() && tasks[j].id == id
}

/// `j` is the position of the first task that carries `id`.
pub open spec fn first_with_id(tasks: Seq<Task>, id: usize, j: int) -> bool {
    &&& 0 <= j < tasks.len()
    &&& tasks[j].id == id
    &&& forall|k: int| 0 <= k < j ==> tasks[k].id != id
}

pub open spec fn is_open(t: Task) -> bool {
    !t.done
}

impl TodoList {
    /// An empty list.
    pub fn new() -> (r: Self)
        ensures
            r.tasks@ == Seq::<Task>::empty(),
    {
        TodoList { tasks: Vec::new() }
    }

    /// Appends an open task whose id is one past the last task's (1 on an empty list).
    pub fn add_task(&mut self, description: String)
        requires
            next_id(old(self).tasks@) <= usize::MAX,
        ensures
            final(self).tasks@ == old(self).tasks@.push(
                Task { id: next_id(old(self).tasks@) as usize, description, done: false },
            ),
    {
        let n = self.tasks.len();
        let id: usize = if n == 0 {
            1
        } else {
            self.tasks[n - 1].id + 1
        };
        self.tasks.push(Task { id, description, done: false });
    }

    /// Marks the task at position `index` as done; false, with nothing changed, when
    /// there is no such position.
    pub fn mark_done(&mut self, index: usize) -> (r: bool)
        ensures
            r == (index < old(self).tasks@.len()),
            r ==> final(self).tasks@ == old(self).tasks@.update(
                index as int,
                Task {
                    id: old(self).tasks@[index as int].id,
                    description: old(self).tasks@[index as int].description,
                    done: true,
                },
            ),
            !r ==> final(self).tasks@ == old(self).tasks@,
    {
        if index >= self.tasks.len() {
            return false;
        }
        let ghost before = self.tasks@;
        let mut task = self.tasks.remove(index);
        task.done = true;
        self.tasks.insert(index, task);
        assert(self.tasks@ =~= before.update(
            index as int,
            Task { id: before[index as int].id, description: before[index as int].description, done: true },
        ));
        true
    }

    /// Removes the first task that carries `id`; false, with nothing changed, when no
    /// task does.
    pub fn remove_task(&mut self, id: usize) -> (r: bool)
        ensures
            r == has_id(old(self).tasks@, id),
            r ==> exists|j: int|
                first_with_id(old(self).tasks@, id, j) && final(self).tasks@ == old(
                    self,
                ).tasks@.remove(j),
            !r ==> final(self).tasks@ == old(self).tasks@,
    {
        let n = self.tasks.len();
        let mut i: usize = 0;
        while i < n
            invariant
                n == self.tasks.len(),
                i <= n,
                self.tasks@ == old(self).tasks@,
                forall|k: int| 0 <= k < i ==> self.tasks@[k].id != id,
            decreases n - i,
        {
            if self.tasks[i].id == id {
                let ghost before = self.tasks@;
                self.tasks.remove(i);
                assert(first_with_id(before, id, i as int));
                return true;
            }
            i = i + 1;
        }
        false
    }

    /// Keeps the open tasks, in their order, and drops the done ones.
    pub fn remove_completed(&mut self)
        ensures
            final(self).tasks@ == old(self).tasks@.filter(|t: Task| is_open(t)),
    {
        let mut all: Vec<Task> = Vec::new();
        core::mem::swap(&mut all, &mut self.tasks);
        let ghost orig = all@;
        let mut kept: Vec<Task> = Vec::new();
        proof {
            reveal(Seq::filter);
            assert(orig.take(0) =~= Seq::<Task>::empty());
        }
        while all.len() > 0
            invariant
                all@.len() <= orig.len(),
                all@ == orig.skip(orig.len() - all@.len()),
                kept@ == orig.take(orig.len() - all@.len()).filter(|t: Task| is_open(t)),
            decreases all.len(),
        {
            let ghost p = orig.len() - all@.len();
            let t = all.remove(0);
            proof {
                reveal(Seq::filter);
                assert(orig.take(p + 1).drop_last() =~= orig.take(p));
                assert(orig.take(p + 1).last() == t);
            }
            if !t.done {
                kept.push(t);
            }
            assert(all@ =~= orig.skip(p + 1));
        }
        assert(orig.take(orig.len() as int) =~= orig);
        self.tasks = kept;
    }
}

} // verus!
