//! The task store: an ordered collection of records keyed by identifiers that
//! the store hands out from its own counter.
use vstd::prelude::*;
use crate::error::{ErrorView, TaskError};
use crate::task::{Identified, Serializable, Task};

verus! {

/// The position of the first record with identifier `id`, if there is one.
pub open spec fn index_of<T: Identified>(s: Seq<T>, id: u32) -> Option<int>
    decreases s.len(),
{
    if s.len() == 0 {
        None
    } else {
        match index_of(s.drop_last(), id) {
            Some(i) => Some(i),
            None => if s.last().key() == id {
                Some(s.len() - 1)
            } else {
                None
            },
        }
    }
}

/// The largest identifier among the records, zero when there are none.
pub open spec fn max_key<T: Identified>(s: Seq<T>) -> nat
    decreases s.len(),
{
    if s.len() == 0 {
        0
    } else {
        let m = max_key(s.drop_last());
        if s.last().key() > m {
            s.last().key() as nat
        } else {
            m
        }
    }
}

/// No two records share an identifier.
pub open spec fn keys_distinct<T: Identified>(s: Seq<T>) -> bool {
    forall|i: int, j: int|
        0 <= i < s.len() && 0 <= j < s.len() && i != j ==> #[trigger] s[i].key() != #[trigger] s[j].key()
}

/// `index_of` finds the first record with the identifier, and finds nothing only
/// where no record has it.
pub proof fn lemma_index_of<T: Identified>(s: Seq<T>, id: u32)
    ensures
        index_of(s, id) is None <==> forall|i: int| 0 <= i < s.len() ==> #[trigger] s[i].key() != id,
        index_of(s, id) matches Some(k) ==> 0 <= k < s.len() && s[k].key() == id && forall|j: int|
            0 <= j < k ==> #[trigger] s[j].key() != id,
    decreases s.len(),
{
    if s.len() > 0 {
        let init = s.drop_last();
        lemma_index_of(init, id);
        assert(forall|i: int| 0 <= i < init.len() ==> init[i] == s[i]);
    }
}

proof fn lemma_index_of_prefix<T: Identified>(s: Seq<T>, j: int, id: u32)
    requires
        0 <= j <= s.len(),
        index_of(s.subrange(0, j), id) is Some,
    ensures
        index_of(s, id) == index_of(s.subrange(0, j), id),
    decreases s.len(),
{
    if j == s.len() {
        assert(s.subrange(0, j) =~= s);
    } else {
        assert(s.drop_last().subrange(0, j) =~= s.subrange(0, j));
        lemma_index_of_prefix(s.drop_last(), j, id);
    }
}

/// Every identifier is at most the largest one.
pub proof fn lemma_max_key<T: Identified>(s: Seq<T>)
    ensures
        forall|i: int| 0 <= i < s.len() ==> #[trigger] s[i].key() <= max_key(s),
        max_key(s) <= u32::MAX,
    decreases s.len(),
{
    if s.len() > 0 {
        lemma_max_key(s.drop_last());
        assert(forall|i: int| 0 <= i < s.len() - 1 ==> s[i] == s.drop_last()[i]);
    }
}

pub struct TaskManager<T: Serializable + Identified + Clone> {
    tasks: Vec<T>,
    next_id: u64,
}

impl<T: Serializable + Identified + Clone> View for TaskManager<T> {
    type V = Seq<T>;

    /// The records, in the order they were added.
    closed spec fn view(&self) -> Seq<T> {
        self.tasks@
    }
}

impl<T: Serializable + Identified + Clone> TaskManager<T> {
    /// The identifier that the next added record will get.
    pub closed spec fn next_key(&self) -> nat {
        self.next_id as nat
    }

    /// Every record's identifier is below the next one to be handed out, and no
    /// two records share one.
    pub open spec fn well_keyed(&self) -> bool {
        &&& forall|i: int| 0 <= i < self@.len() ==> (#[trigger] self@[i].key() as nat) < self.next_key()
        &&& keys_distinct(self@)
    }

    /// An empty store whose first identifier is 1.
    pub fn new() -> (r: Self)
        ensures
            r@ == Seq::<T>::empty(),
            r.next_key() == 1,
            r.well_keyed(),
    {
        TaskManager { tasks: Vec::new(), next_id: 1 }
    }

    /// The identifier that the next added record will get.
    pub fn next_id(&self) -> (r: u64)
        ensures
            r as nat == self.next_key(),
    {
        self.next_id
    }

    /// Appends the record under the next identifier of the store's counter and
    /// returns that identifier. The counter only grows, so no identifier is
    /// handed out twice.
    pub fn add_task(&mut self, task: T) -> (r: u32)
        requires
            old(self).next_key() <= u32::MAX,
        ensures
            r as nat == old(self).next_key(),
            final(self)@ == old(self)@.push(task.rekeyed(r)),
            task.rekeyed(r).key() == r,
            final(self).next_key() == old(self).next_key() + 1,
            old(self).well_keyed() ==> final(self).well_keyed(),
    {
        let id = self.next_id as u32;
        let mut task = task;
        task.set_id(id);
        self.tasks.push(task);
        self.next_id = self.next_id + 1;
        proof {
            let s = self@;
            if old(self).well_keyed() {
                assert forall|i: int, j: int|
                    0 <= i < s.len() && 0 <= j < s.len() && i != j implies #[trigger] s[i].key()
                    != #[trigger] s[j].key() by {
                    if i < s.len() - 1 {
                        assert(s[i] == old(self)@[i]);
                    }
                    if j < s.len() - 1 {
                        assert(s[j] == old(self)@[j]);
                    }
                }
                assert forall|i: int| 0 <= i < s.len() implies (#[trigger] s[i].key() as nat)
                    < self.next_key() by {
                    if i < s.len() - 1 {
                        assert(s[i] == old(self)@[i]);
                    }
                }
            }
        }
        id
    }

    /// The position of the first record with identifier `id`.
    fn position(&self, id: u32) -> (r: Option<usize>)
        ensures
            match r {
                Some(i) => index_of(self@, id) == Some(i as int) && i < self@.len(),
                None => index_of(self@, id) is None,
            },
    {
        let mut i: usize = 0;
        while i < self.tasks.len()
            invariant
                i <= self@.len(),
                self@ == self.tasks@,
                index_of(self@.subrange(0, i as int), id) is None,
            decreases self@.len() - i,
        {
            let ghost pre = self@.subrange(0, i as int);
            proof {
                assert(self@.subrange(0, i + 1).drop_last() =~= pre);
            }
            if self.tasks[i].id() == id {
                proof {
                    lemma_index_of_prefix(self@, i + 1, id);
                }
                return Some(i);
            }
            i = i + 1;
        }
        proof {
            assert(self@.subrange(0, self@.len() as int) =~= self@);
        }
        None
    }

    /// The first record with identifier `id`, if any.
    pub fn get_task(&self, id: u32) -> (r: Option<&T>)
        ensures
            match r {
                Some(t) => index_of(self@, id) matches Some(i) && *t == self@[i],
                None => index_of(self@, id) is None,
            },
    {
        match self.position(id) {
            Some(i) => Some(&self.tasks[i]),
            None => None,
        }
    }

    /// The first record with identifier `id`, for changing in place.
    pub fn get_task_mut(&mut self, id: u32) -> (r: Option<&mut T>)
        ensures
            final(self).next_key() == old(self).next_key(),
            match r {
                Some(t) => index_of(old(self)@, id) matches Some(i) && *t == old(self)@[i]
                    && final(self)@ == old(self)@.update(i, *final(t)),
                None => index_of(old(self)@, id) is None && final(self)@ == old(self)@,
            },
    {
        match self.position(id) {
            Some(i) => Some(&mut self.tasks[i]),
            None => None,
        }
    }

    /// Takes out and returns the first record with identifier `id`; `NotFound`
    /// when there is none.
    pub fn remove_task(&mut self, id: u32) -> (r: Result<T, TaskError>)
        ensures
            final(self).next_key() == old(self).next_key(),
            match r {
                Ok(t) => index_of(old(self)@, id) matches Some(i) && t == old(self)@[i]
                    && final(self)@ == old(self)@.remove(i),
                Err(e) => index_of(old(self)@, id) is None && e@ == ErrorView::NotFound(id)
                    && final(self)@ == old(self)@,
            },
            old(self).well_keyed() ==> final(self).well_keyed(),
    {
        match self.position(id) {
            Some(i) => {
                let t = self.tasks.remove(i);
                proof {
                    let s = self@;
                    let o = old(self)@;
                    assert(s =~= o.remove(i as int));
                    if old(self).well_keyed() {
                        assert forall|a: int, b: int|
                            0 <= a < s.len() && 0 <= b < s.len() && a != b implies #[trigger] s[a].key()
                            != #[trigger] s[b].key() by {
                            let a2 = if a < i { a } else { a + 1 };
                            let b2 = if b < i { b } else { b + 1 };
                            assert(s[a] == o[a2]);
                            assert(s[b] == o[b2]);
                        }
                        assert forall|a: int| 0 <= a < s.len() implies (#[trigger] s[a].key() as nat)
                            < self.next_key() by {
                            let a2 = if a < i { a } else { a + 1 };
                            assert(s[a] == o[a2]);
                        }
                    }
                }
                Ok(t)
            },
            None => Err(TaskError::NotFound(id)),
        }
    }

    /// All records, in the order they were added.
    pub fn list_tasks(&self) -> (r: &[T])
        ensures
            r@ == self@,
    {
        self.tasks.as_slice()
    }

    pub fn count(&self) -> (r: usize)
        ensures
            r == self@.len(),
    {
        self.tasks.len()
    }

    /// Replaces all records with `tasks`; the next identifier becomes one more
    /// than the largest loaded one (1 when there are none).
    pub fn load_tasks(&mut self, tasks: Vec<T>)
        ensures
            final(self)@ == tasks@,
            final(self).next_key() == max_key(tasks@) + 1,
            forall|i: int|
                0 <= i < tasks@.len() ==> (#[trigger] tasks@[i].key() as nat)
                    < final(self).next_key(),
            final(self).well_keyed() == keys_distinct(tasks@),
    {
        let mut max: u32 = 0;
        let mut i: usize = 0;
        while i < tasks.len()
            invariant
                i <= tasks@.len(),
                max == max_key(tasks@.subrange(0, i as int)),
            decreases tasks@.len() - i,
        {
            proof {
                assert(tasks@.subrange(0, i + 1).drop_last() =~= tasks@.subrange(0, i as int));
            }
            let k = tasks[i].id();
            if k > max {
                max = k;
            }
            i = i + 1;
        }
        proof {
            assert(tasks@.subrange(0, tasks@.len() as int) =~= tasks@);
            lemma_max_key(tasks@);
        }
        self.tasks = tasks;
        self.next_id = max as u64 + 1;
    }
}

impl TaskManager<Task> {
    /// The first task with identifier `id`, if any.
    pub fn get_task_by_id(&self, id: u32) -> (r: Option<&Task>)
        ensures
            match r {
                Some(t) => index_of(self@, id) matches Some(i) && *t == self@[i],
                None => index_of(self@, id) is None,
            },
    {
        self.get_task(id)
    }

    /// The first task with identifier `id`, for changing in place.
    pub fn get_task_by_id_mut(&mut self, id: u32) -> (r: Option<&mut Task>)
        ensures
            final(self).next_key() == old(self).next_key(),
            match r {
                Some(t) => index_of(old(self)@, id) matches Some(i) && *t == old(self)@[i]
                    && final(self)@ == old(self)@.update(i, *final(t)),
                None => index_of(old(self)@, id) is None && final(self)@ == old(self)@,
            },
    {
        self.get_task_mut(id)
    }

    /// Takes out and returns the first task with identifier `id`; `NotFound` when
    /// there is none.
    pub fn remove_task_by_id(&mut self, id: u32) -> (r: Result<Task, TaskError>)
        ensures
            final(self).next_key() == old(self).next_key(),
            match r {
                Ok(t) => index_of(old(self)@, id) matches Some(i) && t == old(self)@[i]
                    && final(self)@ == old(self)@.remove(i),
                Err(e) => index_of(old(self)@, id) is None && e@ == ErrorView::NotFound(id)
                    && final(self)@ == old(self)@,
            },
            old(self).well_keyed() ==> final(self).well_keyed(),
    {
        self.remove_task(id)
    }

    /// Replaces all tasks with `tasks`; the next identifier becomes one more than
    /// the largest loaded one (1 when there are none).
    pub fn load_tasks_with_id_update(&mut self, tasks: Vec<Task>)
        ensures
            final(self)@ == tasks@,
            final(self).next_key() == max_key(tasks@) + 1,
            forall|i: int|
                0 <= i < tasks@.len() ==> (#[trigger] tasks@[i].key() as nat)
                    < final(self).next_key(),
            final(self).well_keyed() == keys_distinct(tasks@),
    {
        self.load_tasks(tasks)
    }
}

} // verus!
