//! The decisions of the interactive command loop: which command a line names,
//! what each command does to the store, and what `list` and `stats` report.
//! Reading lines, printing and writing the file are left to the caller.
use vstd::prelude::*;
use crate::error::{ErrorView, TaskError};
use crate::manager::{index_of, lemma_index_of, TaskManager};
use crate::task::{creation_stamp, priority_named, status_named, Priority, Status, Task, TaskView};
use crate::text::{
    is_blank, join_on, parse_u32, parsed_u32, push_char, push_text, same_text, strip_prefix,
};

verus! {

#[derive(Debug, Clone, Copy, PartialEq, Eq, Structural)]
pub enum Command {
    Add,
    List,
    Show,
    Update,
    Complete,
    Delete,
    Stats,
    Help,
    Quit,
    Unknown,
}

/// The command that a first word names.
pub open spec fn command_named(w: Seq<char>) -> Command {
    if w == "add"@ {
        Command::Add
    } else if w == "list"@ {
        Command::List
    } else if w == "show"@ {
        Command::Show
    } else if w == "update"@ {
        Command::Update
    } else if w == "complete"@ {
        Command::Complete
    } else if w == "delete"@ {
        Command::Delete
    } else if w == "stats"@ {
        Command::Stats
    } else if w == "help"@ {
        Command::Help
    } else if w == "quit"@ || w == "exit"@ {
        Command::Quit
    } else {
        Command::Unknown
    }
}

impl Command {
    /// The command that a line's first word names; anything else is `Unknown`.
    pub fn named(word: &str) -> (r: Command)
        ensures
            r == command_named(word@),
    {
        if same_text(word, "add") {
            Command::Add
        } else if same_text(word, "list") {
            Command::List
        } else if same_text(word, "show") {
            Command::Show
        } else if same_text(word, "update") {
            Command::Update
        } else if same_text(word, "complete") {
            Command::Complete
        } else if same_text(word, "delete") {
            Command::Delete
        } else if same_text(word, "stats") {
            Command::Stats
        } else if same_text(word, "help") {
            Command::Help
        } else if same_text(word, "quit") || same_text(word, "exit") {
            Command::Quit
        } else {
            Command::Unknown
        }
    }

    /// Whether the store is written back after the command succeeds.
    pub fn saves(&self) -> (r: bool)
        ensures
            r == (*self == Command::Add || *self == Command::Update || *self == Command::Complete
                || *self == Command::Delete),
    {
        match self {
            Command::Add | Command::Update | Command::Complete | Command::Delete => true,
            _ => false,
        }
    }
}

/// The texts of the arguments.
pub open spec fn arg_texts(args: Seq<&str>) -> Seq<Seq<char>> {
    args.map_values(|a: &str| a@)
}

/// The identifier argument read as a number, or `Invalid task ID`.
fn id_arg(s: &str) -> (r: Result<u32, TaskError>)
    ensures
        match r {
            Ok(v) => parsed_u32(s@) == Some(v),
            Err(e) => parsed_u32(s@) is None && e@ == ErrorView::Parse("Invalid task ID"@),
        },
{
    match parse_u32(s) {
        Some(v) => Ok(v),
        None => Err(TaskError::ParseError("Invalid task ID".to_owned())),
    }
}

/// `add <title> <priority> [category]`: adds a pending task under the store's
/// next identifier and returns that identifier.
pub fn add_command(m: &mut TaskManager<Task>, args: &[&str]) -> (r: Result<u32, TaskError>)
    requires
        old(m).next_key() <= u32::MAX,
    ensures
        args@.len() < 2 ==> r is Err && r->Err_0@ == ErrorView::Validation(
            "Usage: add <title> <priority> [category]"@,
        ),
        args@.len() >= 2 && priority_named(args@[1]@) is None ==> r is Err && r->Err_0@
            == ErrorView::InvalidPriority(args@[1]@),
        args@.len() >= 2 && priority_named(args@[1]@) is Some && is_blank(args@[0]@) ==> r is Err
            && r->Err_0@ == ErrorView::Validation("Title cannot be empty"@),
        args@.len() >= 2 && priority_named(args@[1]@) is Some && !is_blank(args@[0]@) ==> r is Ok,
        r is Err ==> final(m)@ == old(m)@ && final(m).next_key() == old(m).next_key(),
        r matches Ok(id) ==> {
            &&& id as nat == old(m).next_key()
            &&& final(m).next_key() == old(m).next_key() + 1
            &&& final(m)@.len() == old(m)@.len() + 1
            &&& final(m)@.drop_last() == old(m)@
            &&& final(m)@.last()@ == (TaskView {
                id,
                title: args@[0]@,
                description: None,
                priority: priority_named(args@[1]@)->0,
                status: Status::Pending,
                category: if args@.len() > 2 {
                    Some(args@[2]@)
                } else {
                    None
                },
                created_at: creation_stamp(),
            })
        },
{
    if args.len() < 2 {
        return Err(TaskError::ValidationError("Usage: add <title> <priority> [category]".to_owned()));
    }
    let priority = Priority::parse(args[1])?;
    let mut task = Task::new(0, args[0].to_owned(), priority)?;
    if args.len() > 2 {
        task = task.with_category(args[2].to_owned());
    }
    let id = m.add_task(task);
    proof {
        assert(m@.drop_last() =~= old(m)@);
    }
    Ok(id)
}

/// `show <id>`: the task with that identifier.
pub fn show_command<'a>(m: &'a TaskManager<Task>, args: &[&str]) -> (r: Result<&'a Task, TaskError>)
    ensures
        args@.len() == 0 ==> r is Err && r->Err_0@ == ErrorView::Validation("Usage: show <id>"@),
        args@.len() > 0 && parsed_u32(args@[0]@) is None ==> r is Err && r->Err_0@
            == ErrorView::Parse("Invalid task ID"@),
        args@.len() > 0 ==> (parsed_u32(args@[0]@) matches Some(id) ==> match r {
            Ok(t) => index_of(m@, id) matches Some(i) && *t == m@[i],
            Err(e) => index_of(m@, id) is None && e@ == ErrorView::NotFound(id),
        }),
{
    if args.len() == 0 {
        return Err(TaskError::ValidationError("Usage: show <id>".to_owned()));
    }
    let id = id_arg(args[0])?;
    match m.get_task_by_id(id) {
        Some(t) => Ok(t),
        None => Err(TaskError::NotFound(id)),
    }
}

/// `complete <id>`: marks the task with that identifier completed and returns
/// the identifier.
pub fn complete_command(m: &mut TaskManager<Task>, args: &[&str]) -> (r: Result<u32, TaskError>)
    ensures
        final(m).next_key() == old(m).next_key(),
        args@.len() == 0 ==> r is Err && r->Err_0@ == ErrorView::Validation(
            "Usage: complete <id>"@,
        ),
        args@.len() > 0 && parsed_u32(args@[0]@) is None ==> r is Err && r->Err_0@
            == ErrorView::Parse("Invalid task ID"@),
        args@.len() > 0 ==> (parsed_u32(args@[0]@) matches Some(id) ==> match r {
            Ok(v) => index_of(old(m)@, id) matches Some(i) && v == id && final(m)@
                == old(m)@.update(i, Task { status: Status::Completed, ..old(m)@[i] }),
            Err(e) => index_of(old(m)@, id) is None && e@ == ErrorView::NotFound(id),
        }),
        r is Err ==> final(m)@ == old(m)@,
{
    if args.len() == 0 {
        return Err(TaskError::ValidationError("Usage: complete <id>".to_owned()));
    }
    let id = id_arg(args[0])?;
    match m.get_task_by_id_mut(id) {
        Some(t) => {
            t.set_status(Status::Completed);
            Ok(id)
        },
        None => Err(TaskError::NotFound(id)),
    }
}

/// `delete <id>`: takes out and returns the task with that identifier.
pub fn delete_command(m: &mut TaskManager<Task>, args: &[&str]) -> (r: Result<Task, TaskError>)
    ensures
        final(m).next_key() == old(m).next_key(),
        args@.len() == 0 ==> r is Err && r->Err_0@ == ErrorView::Validation(
            "Usage: delete <id>"@,
        ),
        args@.len() > 0 && parsed_u32(args@[0]@) is None ==> r is Err && r->Err_0@
            == ErrorView::Parse("Invalid task ID"@),
        args@.len() > 0 ==> (parsed_u32(args@[0]@) matches Some(id) ==> match r {
            Ok(t) => index_of(old(m)@, id) matches Some(i) && t == old(m)@[i]
                && final(m)@ == old(m)@.remove(i),
            Err(e) => index_of(old(m)@, id) is None && e@ == ErrorView::NotFound(id),
        }),
        r is Err ==> final(m)@ == old(m)@,
        old(m).well_keyed() ==> final(m).well_keyed(),
{
    if args.len() == 0 {
        return Err(TaskError::ValidationError("Usage: delete <id>".to_owned()));
    }
    let id = id_arg(args[0])?;
    m.remove_task_by_id(id)
}

/// The arguments from `from` on, joined with `sep` between each two.
fn join_args(args: &[&str], from: usize, sep: char) -> (r: String)
    requires
        from <= args@.len(),
    ensures
        r@ == join_on(arg_texts(args@.subrange(from as int, args@.len() as int)), sep),
{
    let ghost parts = arg_texts(args@.subrange(from as int, args@.len() as int));
    let mut out = String::new();
    let mut i: usize = from;
    proof {
        assert(parts.subrange(0, 0) =~= Seq::<Seq<char>>::empty());
    }
    while i < args.len()
        invariant
            from <= i <= args@.len(),
            parts == arg_texts(args@.subrange(from as int, args@.len() as int)),
            out@ == join_on(parts.subrange(0, i - from), sep),
        decreases args@.len() - i,
    {
        let ghost k = i - from;
        proof {
            assert(parts.subrange(0, k + 1).drop_last() =~= parts.subrange(0, k));
            assert(parts[k] == args@[i as int]@);
        }
        if i > from {
            push_char(&mut out, sep);
        }
        push_text(&mut out, args[i]);
        proof {
            if k == 0 {
                assert(out@ =~= parts.subrange(0, 1)[0]);
            } else {
                assert(out@ =~= join_on(parts.subrange(0, k), sep).push(sep) + parts.subrange(
                    0,
                    k + 1,
                ).last());
            }
        }
        i = i + 1;
    }
    proof {
        assert(parts.subrange(0, parts.len() as int) =~= parts);
    }
    out
}

/// `b` is `a` with at most the record at `i` replaced.
pub open spec fn others_kept(a: Seq<Task>, b: Seq<Task>, i: int) -> bool {
    a.len() == b.len() && forall|j: int| 0 <= j < a.len() && j != i ==> #[trigger] b[j] == a[j]
}

/// `update <id> <field> <value>`: sets the status, the priority or the title of
/// the task with that identifier; a title is all words from the third on, joined
/// by single spaces. Returns the identifier.
pub fn update_command(m: &mut TaskManager<Task>, args: &[&str]) -> (r: Result<u32, TaskError>)
    ensures
        final(m).next_key() == old(m).next_key(),
        r matches Ok(v) ==> args@.len() >= 3 && parsed_u32(args@[0]@) == Some(v),
        r is Err ==> final(m)@ == old(m)@,
        args@.len() < 3 ==> r is Err && r->Err_0@ == ErrorView::Validation(
            "Usage: update <id> <field> <value>"@,
        ),
        args@.len() >= 3 && parsed_u32(args@[0]@) is None ==> r is Err && r->Err_0@
            == ErrorView::Parse("Invalid task ID"@),
        args@.len() >= 3 ==> (parsed_u32(args@[0]@) matches Some(id) ==> {
            let field = args@[1]@;
            let value = args@[2]@;
            match index_of(old(m)@, id) {
                None => r is Err && r->Err_0@ == ErrorView::NotFound(id),
                Some(i) => if field == "status"@ {
                    match status_named(value) {
                        Some(st) => r is Ok && final(m)@ == old(m)@.update(
                            i,
                            Task { status: st, ..old(m)@[i] },
                        ),
                        None => r is Err && r->Err_0@ == ErrorView::InvalidStatus(value),
                    }
                } else if field == "priority"@ {
                    match priority_named(value) {
                        Some(p) => r is Ok && final(m)@ == old(m)@.update(
                            i,
                            Task { priority: p, ..old(m)@[i] },
                        ),
                        None => r is Err && r->Err_0@ == ErrorView::InvalidPriority(value),
                    }
                } else if field == "title"@ {
                    &&& r is Ok
                    &&& others_kept(old(m)@, final(m)@, i)
                    &&& final(m)@[i]@ == (TaskView {
                        title: join_on(arg_texts(args@.subrange(2, args@.len() as int)), ' '),
                        ..old(m)@[i]@
                    })
                } else {
                    r is Err && r->Err_0@ == ErrorView::Validation(
                        "Unknown field: "@ + field + ". Valid fields: status, priority, title"@,
                    )
                },
            }
        }),
{
    if args.len() < 3 {
        return Err(TaskError::ValidationError("Usage: update <id> <field> <value>".to_owned()));
    }
    let id = id_arg(args[0])?;
    if m.get_task_by_id(id).is_none() {
        return Err(TaskError::NotFound(id));
    }
    if same_text(args[1], "status") {
        let status = Status::parse(args[2])?;
        match m.get_task_by_id_mut(id) {
            Some(t) => t.set_status(status),
            None => {},
        }
    } else if same_text(args[1], "priority") {
        let priority = Priority::parse(args[2])?;
        match m.get_task_by_id_mut(id) {
            Some(t) => t.set_priority(priority),
            None => {},
        }
    } else if same_text(args[1], "title") {
        let title = join_args(args, 2, ' ');
        proof {
            lemma_index_of(m@, id);
        }
        match m.get_task_by_id_mut(id) {
            Some(t) => t.set_title(title),
            None => {},
        }
    } else {
        let mut msg = "Unknown field: ".to_owned();
        push_text(&mut msg, args[1]);
        push_text(&mut msg, ". Valid fields: status, priority, title");
        return Err(TaskError::ValidationError(msg));
    }
    Ok(id)
}

/// What `list` shows: tasks with this status, priority and category, where each
/// is given.
pub struct Filter {
    pub status: Option<Status>,
    pub priority: Option<Priority>,
    pub category: Option<String>,
}

pub struct FilterView {
    pub status: Option<Status>,
    pub priority: Option<Priority>,
    pub category: Option<Seq<char>>,
}

impl View for Filter {
    type V = FilterView;

    open spec fn view(&self) -> FilterView {
        FilterView {
            status: self.status,
            priority: self.priority,
            category: match self.category {
                Some(c) => Some(c@),
                None => None,
            },
        }
    }
}

pub open spec fn has_prefix(s: Seq<char>, p: Seq<char>) -> bool {
    p.len() <= s.len() && s.subrange(0, p.len() as int) == p
}

pub open spec fn after_prefix(s: Seq<char>, p: Seq<char>) -> Seq<char> {
    s.subrange(p.len() as int, s.len() as int)
}

/// The filter that `list` arguments give, read left to right: `status=<s>`,
/// `priority=<p>` and `category=<c>` each set their part (a status or priority
/// that does not read clears it), and other arguments are ignored.
pub open spec fn filter_of(args: Seq<Seq<char>>) -> FilterView
    decreases args.len(),
{
    if args.len() == 0 {
        FilterView { status: None, priority: None, category: None }
    } else {
        let f = filter_of(args.drop_last());
        let a = args.last();
        if has_prefix(a, "status="@) {
            FilterView { status: status_named(after_prefix(a, "status="@)), ..f }
        } else if has_prefix(a, "priority="@) {
            FilterView { priority: priority_named(after_prefix(a, "priority="@)), ..f }
        } else if has_prefix(a, "category="@) {
            FilterView { category: Some(after_prefix(a, "category="@)), ..f }
        } else {
            f
        }
    }
}

/// Whether a task passes the filter.
pub open spec fn passes(f: FilterView, t: TaskView) -> bool {
    &&& (f.status matches Some(s) ==> t.status == s)
    &&& (f.priority matches Some(p) ==> t.priority == p)
    &&& (f.category matches Some(c) ==> t.category == Some(c))
}

/// The tasks that pass the filter, in their order.
pub open spec fn chosen(s: Seq<Task>, f: FilterView) -> Seq<Task>
    decreases s.len(),
{
    if s.len() == 0 {
        Seq::empty()
    } else if passes(f, s.last()@) {
        chosen(s.drop_last(), f).push(s.last())
    } else {
        chosen(s.drop_last(), f)
    }
}

impl Filter {
    /// Reads the arguments of `list`.
    pub fn parse(args: &[&str]) -> (r: Filter)
        ensures
            r@ == filter_of(arg_texts(args@)),
    {
        let mut f = Filter { status: None, priority: None, category: None };
        let mut i: usize = 0;
        proof {
            assert(arg_texts(args@).subrange(0, 0) =~= Seq::<Seq<char>>::empty());
        }
        while i < args.len()
            invariant
                i <= args@.len(),
                f@ == filter_of(arg_texts(args@).subrange(0, i as int)),
            decreases args@.len() - i,
        {
            proof {
                assert(arg_texts(args@).subrange(0, i + 1).drop_last() =~= arg_texts(
                    args@,
                ).subrange(0, i as int));
                assert(arg_texts(args@).subrange(0, i + 1).last() == args@[i as int]@);
            }
            let a = args[i];
            if let Some(v) = strip_prefix(a, "status=") {
                f.status = match Status::parse(v) {
                    Ok(s) => Some(s),
                    Err(_) => None,
                };
            } else if let Some(v) = strip_prefix(a, "priority=") {
                f.priority = match Priority::parse(v) {
                    Ok(p) => Some(p),
                    Err(_) => None,
                };
            } else if let Some(v) = strip_prefix(a, "category=") {
                f.category = Some(v.to_owned());
            }
            i = i + 1;
        }
        proof {
            assert(arg_texts(args@).subrange(0, args@.len() as int) =~= arg_texts(args@));
        }
        f
    }

    /// Whether the task passes.
    pub fn accepts(&self, t: &Task) -> (r: bool)
        ensures
            r == passes(self@, t@),
    {
        if let Some(s) = self.status {
            if t.status != s {
                return false;
            }
        }
        if let Some(p) = self.priority {
            if t.priority != p {
                return false;
            }
        }
        if let Some(c) = &self.category {
            match &t.category {
                Some(tc) => {
                    if !same_text(tc.as_str(), c.as_str()) {
                        return false;
                    }
                },
                None => {
                    return false;
                },
            }
        }
        true
    }
}

/// The tasks that the references point to.
pub open spec fn pointed(s: Seq<&Task>) -> Seq<Task> {
    s.map_values(|t: &Task| *t)
}

/// `list [filter]`: the tasks that pass the filter, in the order they were added.
pub fn filter_tasks<'a>(tasks: &'a [Task], f: &Filter) -> (r: Vec<&'a Task>)
    ensures
        pointed(r@) == chosen(tasks@, f@),
{
    let mut out: Vec<&'a Task> = Vec::new();
    let mut i: usize = 0;
    proof {
        assert(tasks@.subrange(0, 0) =~= Seq::<Task>::empty());
    }
    while i < tasks.len()
        invariant
            i <= tasks@.len(),
            pointed(out@) == chosen(tasks@.subrange(0, i as int), f@),
        decreases tasks@.len() - i,
    {
        proof {
            assert(tasks@.subrange(0, i + 1).drop_last() =~= tasks@.subrange(0, i as int));
        }
        let ghost before = out@;
        if f.accepts(&tasks[i]) {
            out.push(&tasks[i]);
            proof {
                assert(pointed(out@) =~= pointed(before).push(tasks@[i as int]));
            }
        }
        i = i + 1;
    }
    proof {
        assert(tasks@.subrange(0, tasks@.len() as int) =~= tasks@);
    }
    out
}

/// How many tasks have the status.
pub open spec fn status_count(s: Seq<Task>, st: Status) -> nat
    decreases s.len(),
{
    if s.len() == 0 {
        0
    } else {
        status_count(s.drop_last(), st) + if s.last().status == st {
            1nat
        } else {
            0nat
        }
    }
}

/// How many tasks have the priority.
pub open spec fn priority_count(s: Seq<Task>, p: Priority) -> nat
    decreases s.len(),
{
    if s.len() == 0 {
        0
    } else {
        priority_count(s.drop_last(), p) + if s.last().priority == p {
            1nat
        } else {
            0nat
        }
    }
}

/// What `stats` reports: the number of tasks, and how many have each status and
/// each priority.
pub struct Stats {
    pub total: usize,
    pub pending: usize,
    pub in_progress: usize,
    pub completed: usize,
    pub critical: usize,
    pub high: usize,
    pub medium: usize,
    pub low: usize,
}

pub fn task_stats(tasks: &[Task]) -> (r: Stats)
    ensures
        r.total == tasks@.len(),
        r.pending == status_count(tasks@, Status::Pending),
        r.in_progress == status_count(tasks@, Status::InProgress),
        r.completed == status_count(tasks@, Status::Completed),
        r.critical == priority_count(tasks@, Priority::Critical),
        r.high == priority_count(tasks@, Priority::High),
        r.medium == priority_count(tasks@, Priority::Medium),
        r.low == priority_count(tasks@, Priority::Low),
{
    let mut r = Stats {
        total: tasks.len(),
        pending: 0,
        in_progress: 0,
        completed: 0,
        critical: 0,
        high: 0,
        medium: 0,
        low: 0,
    };
    let mut i: usize = 0;
    while i < tasks.len()
        invariant
            i <= tasks@.len(),
            r.total == tasks@.len(),
            r.pending == status_count(tasks@.subrange(0, i as int), Status::Pending),
            r.in_progress == status_count(tasks@.subrange(0, i as int), Status::InProgress),
            r.completed == status_count(tasks@.subrange(0, i as int), Status::Completed),
            r.critical == priority_count(tasks@.subrange(0, i as int), Priority::Critical),
            r.high == priority_count(tasks@.subrange(0, i as int), Priority::High),
            r.medium == priority_count(tasks@.subrange(0, i as int), Priority::Medium),
            r.low == priority_count(tasks@.subrange(0, i as int), Priority::Low),
            r.pending + r.in_progress + r.completed == i,
            r.critical + r.high + r.medium + r.low == i,
        decreases tasks@.len() - i,
    {
        proof {
            assert(tasks@.subrange(0, i + 1).drop_last() =~= tasks@.subrange(0, i as int));
        }
        match tasks[i].status {
            Status::Pending => r.pending = r.pending + 1,
            Status::InProgress => r.in_progress = r.in_progress + 1,
            Status::Completed => r.completed = r.completed + 1,
        }
        match tasks[i].priority {
            Priority::Critical => r.critical = r.critical + 1,
            Priority::High => r.high = r.high + 1,
            Priority::Medium => r.medium = r.medium + 1,
            Priority::Low => r.low = r.low + 1,
        }
        i = i + 1;
    }
    proof {
        assert(tasks@.subrange(0, tasks@.len() as int) =~= tasks@);
    }
    r
}

} // verus!
