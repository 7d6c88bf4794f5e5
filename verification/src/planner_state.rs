//! The planner's editable state: the focused day, the tasks, and the small text
//! prompt that names a new task.

use vstd::prelude::*;
use crate::order::{arranged, derefs, is_stable_order, keep_flagged, kept};
use crate::planner::{initial_tasks, is_valid_date, Date, Task};
use crate::text::{to_chars, trim, trim_bounds, string_of};

verus! {

/// The planner's state.
#[derive(Debug)]
pub struct PlannerState {
    /// Today's date, captured at launch.
    pub today: Date,
    /// The day the Month/Today views focus on.
    pub planner_day: Date,
    /// Planner tasks shared by Today/Week/Month.
    pub tasks: Vec<Task>,
    /// Next task id to hand out.
    pub next_task_id: u64,
    /// The prompt is open (it reuses the palette's keystroke capture).
    pub prompt_open: bool,
    pub prompt_title: String,
    pub prompt_text: String,
    /// The day of the task being added.
    pub prompt_date: Option<Date>,
}

/// Which tasks fall on `date`.
pub open spec fn on_date(tasks: Seq<Task>, date: Date) -> Seq<bool> {
    Seq::new(tasks.len(), |i: int| tasks[i].date == date)
}

/// Sort keys of tasks: undone before done, then by id.
pub open spec fn task_keys(tasks: Seq<Task>) -> Seq<Seq<u64>> {
    tasks.map_values(|t: Task| seq![if t.done { 1u64 } else { 0u64 }, t.id])
}

/// Which tasks stay when the task `id` is deleted.
pub open spec fn other_ids(tasks: Seq<Task>, id: u64) -> Seq<bool> {
    Seq::new(tasks.len(), |i: int| tasks[i].id != id)
}

/// The position of the first task with `id` at or after `k`, or `-1`.
pub open spec fn first_with_id(tasks: Seq<Task>, id: u64, k: int) -> int
    decreases tasks.len() - k,
{
    if k < 0 || k >= tasks.len() {
        -1
    } else if tasks[k].id == id {
        k
    } else {
        first_with_id(tasks, id, k + 1)
    }
}

impl PlannerState {
    /// Seed tasks around `today`, focused on today, with new ids after the seeds'.
    pub fn new(today: Date) -> (s: PlannerState)
        requires
            is_valid_date(today),
        ensures
            s.today == today,
            s.planner_day == today,
            s.tasks.len() == 7,
            forall|i: int| 0 <= i < 7 ==> #[trigger] s.tasks@[i].id == i + 1,
            crate::planner::is_seed_tasks(s.tasks@, today),
            s.next_task_id == 8,
            !s.prompt_open,
            s.prompt_title@.len() == 0,
            s.prompt_text@.len() == 0,
            s.prompt_date is None,
    {
        let tasks = initial_tasks(today);
        let mut m: u64 = 0;
        let mut k: usize = 0;
        while k < tasks.len()
            invariant
                k <= tasks.len() == 7,
                forall|i: int| 0 <= i < 7 ==> #[trigger] tasks@[i].id == i + 1,
                m == k,
            decreases tasks.len() - k,
        {
            if tasks[k].id > m {
                m = tasks[k].id;
            }
            k += 1;
        }
        PlannerState {
            today,
            planner_day: today,
            tasks,
            next_task_id: m + 1,
            prompt_open: false,
            prompt_title: String::new(),
            prompt_text: String::new(),
            prompt_date: None,
        }
    }

    /// Tasks on a given day, undone first then by id.
    pub fn tasks_on(&self, date: Date) -> (r: Vec<&Task>)
        ensures
            ({
                let day = kept(self.tasks@, on_date(self.tasks@, date));
                exists|p: Seq<usize>|
                    #[trigger] is_stable_order(task_keys(day), false, p) && derefs(r@) == arranged(day, p)
            }),
    {
        let ghost flags = on_date(self.tasks@, date);
        let mut day: Vec<&Task> = Vec::new();
        let mut k: usize = 0;
        while k < self.tasks.len()
            invariant
                k <= self.tasks.len(),
                flags == on_date(self.tasks@, date),
                derefs(day@) == kept(self.tasks@.take(k as int), flags.take(k as int)),
            decreases self.tasks.len() - k,
        {
            proof {
                assert(self.tasks@.take(k + 1).drop_last() == self.tasks@.take(k as int));
                assert(flags.take(k + 1).drop_last() == flags.take(k as int));
            }
            if self.tasks[k].date == date {
                day.push(&self.tasks[k]);
            }
            k += 1;
        }
        assert(self.tasks@.take(self.tasks.len() as int) == self.tasks@);
        assert(flags.take(self.tasks.len() as int) == flags);
        let ghost ds = derefs(day@);
        let mut keys: Vec<Vec<u64>> = Vec::new();
        let mut j: usize = 0;
        while j < day.len()
            invariant
                j <= day.len(),
                ds == derefs(day@),
                keys.len() == j,
                forall|a: int| 0 <= a < j ==> #[trigger] keys@[a]@ == task_keys(ds)[a],
            decreases day.len() - j,
        {
            let t = day[j];
            let d: u64 = if t.done { 1 } else { 0 };
            keys.push(vec![d, t.id]);
            j += 1;
        }
        assert(keys@.map_values(|x: Vec<u64>| x@) == task_keys(ds));
        let order = crate::order::stable_order(&keys, false);
        let mut r: Vec<&Task> = Vec::new();
        let mut i: usize = 0;
        while i < order.len()
            invariant
                i <= order.len() == day.len(),
                ds == derefs(day@),
                is_stable_order(task_keys(ds), false, order@),
                r.len() == i,
                forall|a: int| 0 <= a < i ==> *r@[a] == ds[#[trigger] order@[a] as int],
            decreases order.len() - i,
        {
            r.push(day[order[i]]);
            i += 1;
        }
        assert(derefs(r@) =~= arranged(ds, order@));
        r
    }

    /// Focus the planner on a day.
    pub fn select_day(&mut self, date: Date)
        ensures
            *final(self) == (PlannerState { planner_day: date, ..*old(self) }),
    {
        self.planner_day = date;
    }

    /// Flip the done state of the (first) task with `id`; reports whether there
    /// was one.
    pub fn toggle_task(&mut self, id: u64) -> (r: bool)
        ensures
            ({
                let k = first_with_id(old(self).tasks@, id, 0);
                let t = old(self).tasks@[k];
                &&& r == (k >= 0)
                &&& !r ==> *final(self) == *old(self)
                &&& r ==> *final(self) == (PlannerState { tasks: final(self).tasks, ..*old(self) })
                    && final(self).tasks@ == old(self).tasks@.update(
                    k,
                    Task { done: !t.done, ..t },
                )
            }),
    {
        let mut k: usize = 0;
        while k < self.tasks.len()
            invariant
                k <= self.tasks.len(),
                self.tasks@ == old(self).tasks@,
                *self == *old(self),
                first_with_id(self.tasks@, id, 0) == first_with_id(self.tasks@, id, k as int),
            decreases self.tasks.len() - k,
        {
            if self.tasks[k].id == id {
                let mut t = self.tasks.remove(k);
                t.done = !t.done;
                self.tasks.insert(k, t);
                return true;
            }
            k += 1;
        }
        false
    }

    /// Delete every task with `id`.
    pub fn delete_task(&mut self, id: u64)
        ensures
            *final(self) == (PlannerState { tasks: final(self).tasks, ..*old(self) }),
            final(self).tasks@ == kept(old(self).tasks@, other_ids(old(self).tasks@, id)),
    {
        let mut keep: Vec<bool> = Vec::new();
        let mut k: usize = 0;
        while k < self.tasks.len()
            invariant
                k <= self.tasks.len(),
                *self == *old(self),
                keep@ == other_ids(self.tasks@, id).take(k as int),
            decreases self.tasks.len() - k,
        {
            keep.push(self.tasks[k].id != id);
            assert(other_ids(self.tasks@, id).take(k + 1) == other_ids(self.tasks@, id).take(k as int).push(
                self.tasks@[k as int].id != id,
            ));
            k += 1;
        }
        assert(other_ids(self.tasks@, id).take(self.tasks.len() as int) == other_ids(self.tasks@, id));
        let mut tasks: Vec<Task> = Vec::new();
        core::mem::swap(&mut tasks, &mut self.tasks);
        self.tasks = keep_flagged(tasks, &keep);
    }

    /// Open the prompt to add a task on `date`.
    pub fn begin_add_task(&mut self, date: Date)
        ensures
            *final(self) == (PlannerState {
                prompt_open: true,
                prompt_title: final(self).prompt_title,
                prompt_text: final(self).prompt_text,
                prompt_date: Some(date),
                ..*old(self)
            }),
            final(self).prompt_title@ == "New task"@,
            final(self).prompt_text@.len() == 0,
    {
        self.prompt_open = true;
        self.prompt_title = String::from_str("New task");
        self.prompt_text = String::new();
        self.prompt_date = Some(date);
    }

    /// Type text into the prompt.
    pub fn prompt_push(&mut self, s: &str)
        ensures
            *final(self) == (PlannerState { prompt_text: final(self).prompt_text, ..*old(self) }),
            final(self).prompt_text@ == old(self).prompt_text@ + s@,
    {
        self.prompt_text.append(s);
    }

    /// Delete the prompt's last character, if any.
    pub fn prompt_backspace(&mut self)
        ensures
            *final(self) == (PlannerState { prompt_text: final(self).prompt_text, ..*old(self) }),
            final(self).prompt_text@ == (if old(self).prompt_text@.len() == 0 {
                old(self).prompt_text@
            } else {
                old(self).prompt_text@.drop_last()
            }),
    {
        let v = to_chars(self.prompt_text.as_str());
        if v.len() > 0 {
            self.prompt_text = string_of(&v, 0, v.len() - 1);
        }
    }

    /// Close the prompt, discarding its text.
    pub fn prompt_cancel(&mut self)
        ensures
            *final(self) == (PlannerState {
                prompt_open: false,
                prompt_text: final(self).prompt_text,
                prompt_date: None,
                ..*old(self)
            }),
            final(self).prompt_text@.len() == 0,
    {
        self.prompt_open = false;
        self.prompt_text = String::new();
        self.prompt_date = None;
    }

    /// Confirm the prompt: a non-blank text becomes a new task (trimmed, not
    /// done) on the prompt's day; then the prompt closes.
    pub fn prompt_confirm(&mut self)
        requires
            trim(old(self).prompt_text@).len() > 0 && old(self).prompt_date is Some ==> old(
                self,
            ).next_task_id < u64::MAX,
        ensures
            ({
                let text = trim(old(self).prompt_text@);
                let adds = text.len() > 0 && old(self).prompt_date is Some;
                &&& *final(self) == (PlannerState {
                    tasks: final(self).tasks,
                    next_task_id: final(self).next_task_id,
                    prompt_open: false,
                    prompt_text: final(self).prompt_text,
                    prompt_date: None,
                    ..*old(self)
                })
                &&& final(self).prompt_text@.len() == 0
                &&& adds ==> final(self).next_task_id == old(self).next_task_id + 1
                    && final(self).tasks@.drop_last() == old(self).tasks@
                    && final(self).tasks@.len() == old(self).tasks@.len() + 1
                    && final(self).tasks@.last().id == old(self).next_task_id
                    && final(self).tasks@.last().date == old(self).prompt_date->0
                    && final(self).tasks@.last().text@ == text
                    && !final(self).tasks@.last().done
                &&& !adds ==> final(self).tasks == old(self).tasks && final(self).next_task_id
                    == old(self).next_task_id
            }),
    {
        let v = to_chars(self.prompt_text.as_str());
        let (a, b) = trim_bounds(&v, 0, v.len());
        assert(v@.subrange(0, v.len() as int) == v@);
        if a < b {
            match self.prompt_date {
                Some(date) => {
                    let id = self.next_task_id;
                    self.next_task_id = id + 1;
                    let text = string_of(&v, a, b);
                    self.tasks.push(Task { id, date, text, done: false });
                },
                None => {},
            }
        }
        self.prompt_cancel();
    }
}

} // verus!
