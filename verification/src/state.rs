//! The task store: a list of named tasks with accrued seconds, an optional
//! selection, and the draft text of the "new task" input field, together with
//! the operations a front-end drives it with.
use vstd::prelude::*;

verus! {

/// A single timed activity: a name and the whole seconds accrued so far.
pub struct Task {
    pub name: String,
    pub accumulated: u64,
}

/// The mathematical image of a task.
#[verifier::ext_equal]
pub ghost struct TaskV {
    pub name: Seq<char>,
    pub accumulated: u64,
}

impl View for Task {
    type V = TaskV;

    open spec fn view(&self) -> TaskV {
        TaskV { name: self.name@, accumulated: self.accumulated }
    }
}

/// The mathematical image of the whole store.
#[verifier::ext_equal]
pub ghost struct StateV {
    pub tasks: Seq<TaskV>,
    pub selected: Option<usize>,
    pub draft: Seq<char>,
}

impl StateV {
    /// The selection, when present, points at a task.
    pub open spec fn wf(self) -> bool {
        match self.selected {
            Some(i) => i < self.tasks.len(),
            None => true,
        }
    }
}

/// The state a fresh start (or a failed load) begins with: no tasks, no
/// selection, an empty draft.
pub open spec fn default_state() -> StateV {
    StateV { tasks: Seq::empty(), selected: None, draft: Seq::empty() }
}

pub open spec fn views_of(tasks: Seq<Task>) -> Seq<TaskV> {
    tasks.map_values(|t: Task| t@)
}

/// The whole application state: every mutation a user or the timer can cause
/// goes through the methods below.
pub struct AppState {
    pub tasks: Vec<Task>,
    pub selected: Option<usize>,
    pub new_task_name: String,
}

impl View for AppState {
    type V = StateV;

    open spec fn view(&self) -> StateV {
        StateV {
            tasks: views_of(self.tasks@),
            selected: self.selected,
            draft: self.new_task_name@,
        }
    }
}

/// The characters Unicode's White_Space property names: what trimming
/// removes from a candidate task name.
pub open spec fn is_space(c: char) -> bool {
    c == ' ' || c == '\t' || c == '\n' || c == '\r' || c == '\u{000B}' || c == '\u{000C}'
        || c == '\u{0085}' || c == '\u{00A0}' || c == '\u{1680}' || c == '\u{2000}'
        || c == '\u{2001}' || c == '\u{2002}' || c == '\u{2003}' || c == '\u{2004}'
        || c == '\u{2005}' || c == '\u{2006}' || c == '\u{2007}' || c == '\u{2008}'
        || c == '\u{2009}' || c == '\u{200A}' || c == '\u{2028}' || c == '\u{2029}'
        || c == '\u{202F}' || c == '\u{205F}' || c == '\u{3000}'
}

/// Whether `c` is one of the White_Space characters.
fn is_space_ch(c: char) -> (b: bool)
    ensures
        b == is_space(c),
{
    c == ' ' || c == '\t' || c == '\n' || c == '\r' || c == '\u{000B}' || c == '\u{000C}'
        || c == '\u{0085}' || c == '\u{00A0}' || c == '\u{1680}' || c == '\u{2000}'
        || c == '\u{2001}' || c == '\u{2002}' || c == '\u{2003}' || c == '\u{2004}'
        || c == '\u{2005}' || c == '\u{2006}' || c == '\u{2007}' || c == '\u{2008}'
        || c == '\u{2009}' || c == '\u{200A}' || c == '\u{2028}' || c == '\u{2029}'
        || c == '\u{202F}' || c == '\u{205F}' || c == '\u{3000}'
}

/// A name that trims to nothing.
pub open spec fn blank(s: Seq<char>) -> bool {
    forall|i: int| 0 <= i < s.len() ==> is_space(s[i])
}

/// The index of the first task called `name`, if any.
pub open spec fn find_by_name(tasks: Seq<TaskV>, name: Seq<char>) -> Option<int>
    decreases tasks.len(),
{
    if tasks.len() == 0 {
        None
    } else if tasks[0].name == name {
        Some(0)
    } else {
        match find_by_name(tasks.skip(1), name) {
            None => None,
            Some(i) => Some(i + 1),
        }
    }
}

/// What `find_by_name` returns is the first match: a found index carries the
/// name, everything before it does not, and a miss means no task carries it.
pub proof fn lemma_find_is_first(tasks: Seq<TaskV>, name: Seq<char>)
    ensures
        match find_by_name(tasks, name) {
            Some(i) => 0 <= i < tasks.len() && tasks[i].name == name && forall|j: int|
                0 <= j < i ==> tasks[j].name != name,
            None => forall|j: int| 0 <= j < tasks.len() ==> tasks[j].name != name,
        },
    decreases tasks.len(),
{
    if tasks.len() > 0 && tasks[0].name != name {
        lemma_find_is_first(tasks.skip(1), name);
        assert(forall|j: int| 1 <= j < tasks.len() ==> #[trigger] tasks[j] == tasks.skip(1)[j - 1]);
    }
}

proof fn lemma_find_found(tasks: Seq<TaskV>, name: Seq<char>, j: int)
    requires
        0 <= j < tasks.len(),
        tasks[j].name == name,
        forall|m: int| 0 <= m < j ==> tasks[m].name != name,
    ensures
        find_by_name(tasks, name) == Some(j),
    decreases j,
{
    if j > 0 {
        lemma_find_found(tasks.skip(1), name, j - 1);
    }
}

proof fn lemma_find_none(tasks: Seq<TaskV>, name: Seq<char>)
    requires
        forall|m: int| 0 <= m < tasks.len() ==> tasks[m].name != name,
    ensures
        find_by_name(tasks, name) is None,
    decreases tasks.len(),
{
    if tasks.len() > 0 {
        lemma_find_none(tasks.skip(1), name);
    }
}

/// Whether the whole of `s` is blank, the way `add_task` judges a name.
pub fn is_blank_str(s: &str) -> (b: bool)
    ensures
        b == blank(s@),
{
    let n = s.unicode_len();
    let mut i: usize = 0;
    while i < n
        invariant
            0 <= i <= n,
            n == s@.len(),
            forall|j: int| 0 <= j < i ==> is_space(s@[j]),
        decreases n - i,
    {
        let c = s.get_char(i);
        if !is_space_ch(c) {
            return false;
        }
        i += 1;
    }
    true
}

impl AppState {
    pub open spec fn wf(&self) -> bool {
        self@.wf()
    }

    /// An empty store: what the application starts from when nothing was
    /// persisted.
    pub fn new() -> (s: AppState)
        ensures
            s@ == default_state(),
            s.wf(),
    {
        let s = AppState { tasks: Vec::new(), selected: None, new_task_name: String::new() };
        proof {
            assert(s@ =~= default_state());
        }
        s
    }

    /// Appends a task named `name` with zero accrued time and clears the
    /// draft, unless the name trims to nothing, in which case nothing at all
    /// changes. The selection never moves.
    pub fn add_task(&mut self, name: String) -> (added: bool)
        requires
            old(self).wf(),
        ensures
            added == !blank(name@),
            final(self).wf(),
            if blank(name@) {
                final(self)@ == old(self)@
            } else {
                final(self)@ == (StateV {
                    tasks: old(self)@.tasks.push(TaskV { name: name@, accumulated: 0 }),
                    selected: old(self)@.selected,
                    draft: Seq::<char>::empty(),
                })
            },
    {
        if is_blank_str(name.as_str()) {
            false
        } else {
            let ghost pre = self.tasks@;
            let t = Task { name, accumulated: 0 };
            let ghost tv = t@;
            self.tasks.push(t);
            self.new_task_name = String::new();
            proof {
                assert(views_of(pre.push(t)) =~= views_of(pre).push(tv));
            }
            true
        }
    }

    /// Removes the selected task and clears the selection; does nothing when
    /// no task is selected. The draft is untouched either way.
    pub fn remove_selected(&mut self) -> (removed: bool)
        requires
            old(self).wf(),
        ensures
            final(self).wf(),
            removed == (old(self)@.selected is Some),
            match old(self)@.selected {
                Some(i) => final(self)@ == (StateV {
                    tasks: old(self)@.tasks.remove(i as int),
                    selected: None,
                    draft: old(self)@.draft,
                }),
                None => final(self)@ == old(self)@,
            },
    {
        match self.selected {
            Some(idx) => {
                let ghost pre = self.tasks@;
                self.tasks.remove(idx);
                self.selected = None;
                proof {
                    assert(views_of(pre.remove(idx as int)) =~= views_of(pre).remove(idx as int));
                }
                true
            },
            None => false,
        }
    }

    /// Moves the selection to the first task called `name` and reports the
    /// gesture handled; when no task carries the name, nothing changes and
    /// the gesture is reported unhandled.
    pub fn select_by_name(&mut self, name: &String) -> (handled: bool)
        requires
            old(self).wf(),
        ensures
            final(self).wf(),
            final(self)@.tasks == old(self)@.tasks,
            final(self)@.draft == old(self)@.draft,
            handled == (find_by_name(old(self)@.tasks, name@) is Some),
            match find_by_name(old(self)@.tasks, name@) {
                Some(i) => final(self)@.selected == Some(i as usize),
                None => final(self)@.selected == old(self)@.selected,
            },
    {
        let n = self.tasks.len();
        let mut j: usize = 0;
        while j < n
            invariant
                0 <= j <= n,
                n == self.tasks@.len(),
                self.tasks == old(self).tasks,
                self.selected == old(self).selected,
                self.new_task_name == old(self).new_task_name,
                forall|m: int| 0 <= m < j ==> views_of(self.tasks@)[m].name != name@,
            decreases n - j,
        {
            if self.tasks[j].name == *name {
                proof {
                    lemma_find_found(views_of(self.tasks@), name@, j as int);
                }
                self.selected = Some(j);
                return true;
            }
            j += 1;
        }
        proof {
            lemma_find_none(views_of(self.tasks@), name@);
        }
        false
    }

    /// One second of the timer: when a task is selected, exactly that task's
    /// accrued time grows by one. Reports whether a selection existed, which
    /// is when the caller is to persist.
    pub fn tick(&mut self) -> (ticked: bool)
        requires
            old(self).wf(),
            match old(self)@.selected {
                Some(i) => old(self)@.tasks[i as int].accumulated < u64::MAX,
                None => true,
            },
        ensures
            final(self).wf(),
            ticked == (old(self)@.selected is Some),
            match old(self)@.selected {
                Some(i) => final(self)@ == (StateV {
                    tasks: old(self)@.tasks.update(
                        i as int,
                        TaskV {
                            name: old(self)@.tasks[i as int].name,
                            accumulated: (old(self)@.tasks[i as int].accumulated + 1) as u64,
                        },
                    ),
                    selected: old(self)@.selected,
                    draft: old(self)@.draft,
                }),
                None => final(self)@ == old(self)@,
            },
    {
        match self.selected {
            Some(idx) => {
                let ghost pre = self.tasks@;
                let mut t = self.tasks.remove(idx);
                t.accumulated = t.accumulated + 1;
                self.tasks.insert(idx, t);
                proof {
                    assert(views_of(self.tasks@) =~= views_of(pre).update(
                        idx as int,
                        TaskV {
                            name: pre[idx as int]@.name,
                            accumulated: (pre[idx as int]@.accumulated + 1) as u64,
                        },
                    ));
                }
                true
            },
            None => false,
        }
    }
}

} // verus!
