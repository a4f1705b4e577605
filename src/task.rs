//! Task records: priority, status, validation, rendering and the line codec.
use vstd::prelude::*;
use crate::error::{ErrorView, TaskError};
use crate::text::{
    lacks, lemma_parse_decimal, lemma_split_join, blank, decimal, folded, is_blank, join_on, join_text, parse_u32, parsed_u32, push_decimal,
    push_text, same_ignoring_case, split_on, split_text, texts,
};

verus! {

#[derive(Debug, Clone, Copy, PartialEq, Eq, Hash, Structural)]
pub enum Priority {
    Low,
    Medium,
    High,
    Critical,
}

/// The priority that a text names, ignoring ASCII case.
pub open spec fn priority_named(s: Seq<char>) -> Option<Priority> {
    if folded(s) == folded("low"@) {
        Some(Priority::Low)
    } else if folded(s) == folded("medium"@) {
        Some(Priority::Medium)
    } else if folded(s) == folded("high"@) {
        Some(Priority::High)
    } else if folded(s) == folded("critical"@) {
        Some(Priority::Critical)
    } else {
        None
    }
}

/// The canonical upper-case form of a priority.
pub open spec fn priority_text(p: Priority) -> Seq<char> {
    match p {
        Priority::Low => "LOW"@,
        Priority::Medium => "MEDIUM"@,
        Priority::High => "HIGH"@,
        Priority::Critical => "CRITICAL"@,
    }
}

impl Priority {
    /// Reads a priority, ignoring case; any other text is `InvalidPriority`.
    pub fn parse(s: &str) -> (r: Result<Priority, TaskError>)
        ensures
            match r {
                Ok(p) => priority_named(s@) == Some(p),
                Err(e) => priority_named(s@) is None && e@ == ErrorView::InvalidPriority(s@),
            },
    {
        if same_ignoring_case(s, "low") {
            Ok(Priority::Low)
        } else if same_ignoring_case(s, "medium") {
            Ok(Priority::Medium)
        } else if same_ignoring_case(s, "high") {
            Ok(Priority::High)
        } else if same_ignoring_case(s, "critical") {
            Ok(Priority::Critical)
        } else {
            Err(TaskError::InvalidPriority(s.to_owned()))
        }
    }

    /// The canonical upper-case form.
    pub fn as_str(&self) -> (r: &'static str)
        ensures
            r@ == priority_text(*self),
    {
        match self {
            Priority::Low => "LOW",
            Priority::Medium => "MEDIUM",
            Priority::High => "HIGH",
            Priority::Critical => "CRITICAL",
        }
    }
}

#[derive(Debug, Clone, Copy, PartialEq, Eq, Structural)]
pub enum Status {
    Pending,
    InProgress,
    Completed,
}

/// The status that a text names, ignoring ASCII case; two spellings each are
/// accepted for the last two.
pub open spec fn status_named(s: Seq<char>) -> Option<Status> {
    if folded(s) == folded("pending"@) {
        Some(Status::Pending)
    } else if folded(s) == folded("in_progress"@) || folded(s) == folded("inprogress"@) {
        Some(Status::InProgress)
    } else if folded(s) == folded("completed"@) || folded(s) == folded("complete"@) {
        Some(Status::Completed)
    } else {
        None
    }
}

/// The canonical upper-case form of a status.
pub open spec fn status_text(s: Status) -> Seq<char> {
    match s {
        Status::Pending => "PENDING"@,
        Status::InProgress => "IN_PROGRESS"@,
        Status::Completed => "COMPLETED"@,
    }
}

impl Status {
    /// Reads a status, ignoring case; any other text is `InvalidStatus`.
    pub fn parse(s: &str) -> (r: Result<Status, TaskError>)
        ensures
            match r {
                Ok(st) => status_named(s@) == Some(st),
                Err(e) => status_named(s@) is None && e@ == ErrorView::InvalidStatus(s@),
            },
    {
        if same_ignoring_case(s, "pending") {
            Ok(Status::Pending)
        } else if same_ignoring_case(s, "in_progress") || same_ignoring_case(s, "inprogress") {
            Ok(Status::InProgress)
        } else if same_ignoring_case(s, "completed") || same_ignoring_case(s, "complete") {
            Ok(Status::Completed)
        } else {
            Err(TaskError::InvalidStatus(s.to_owned()))
        }
    }

    /// The canonical upper-case form.
    pub fn as_str(&self) -> (r: &'static str)
        ensures
            r@ == status_text(*self),
    {
        match self {
            Status::Pending => "PENDING",
            Status::InProgress => "IN_PROGRESS",
            Status::Completed => "COMPLETED",
        }
    }
}

#[derive(Debug, Clone)]
pub struct Task {
    pub id: u32,
    pub title: String,
    pub description: Option<String>,
    pub priority: Priority,
    pub status: Status,
    pub category: Option<String>,
    pub created_at: String,
}

/// A task with its texts as character sequences.
pub struct TaskView {
    pub id: u32,
    pub title: Seq<char>,
    pub description: Option<Seq<char>>,
    pub priority: Priority,
    pub status: Status,
    pub category: Option<Seq<char>>,
    pub created_at: Seq<char>,
}

pub open spec fn opt_view(o: Option<String>) -> Option<Seq<char>> {
    match o {
        Some(s) => Some(s@),
        None => None,
    }
}

impl View for Task {
    type V = TaskView;

    open spec fn view(&self) -> TaskView {
        TaskView {
            id: self.id,
            title: self.title@,
            description: opt_view(self.description),
            priority: self.priority,
            status: self.status,
            category: opt_view(self.category),
            created_at: self.created_at@,
        }
    }
}

/// The creation stamp that every new task carries.
pub open spec fn creation_stamp() -> Seq<char> {
    "2024-01-15 10:00:00"@
}

/// `[id] [STATUS] [PRIORITY] title`, then ` (category)` when there is one.
pub open spec fn rendering(t: TaskView) -> Seq<char> {
    "["@ + decimal(t.id as nat) + "] ["@ + status_text(t.status) + "] ["@ + priority_text(
        t.priority,
    ) + "] "@ + t.title + match t.category {
        Some(c) => " ("@ + c + ")"@,
        None => Seq::empty(),
    }
}

/// An optional text as it is written in a record line.
pub open spec fn or_none(o: Option<Seq<char>>) -> Seq<char> {
    match o {
        Some(s) => s,
        None => "None"@,
    }
}

/// A field of a record line read back as an optional text.
pub open spec fn absent_if_none(s: Seq<char>) -> Option<Seq<char>> {
    if s == "None"@ {
        None
    } else {
        Some(s)
    }
}

/// The seven fields of a record line, in order.
pub open spec fn line_fields(t: TaskView) -> Seq<Seq<char>> {
    seq![
        decimal(t.id as nat),
        t.title,
        or_none(t.description),
        priority_text(t.priority),
        status_text(t.status),
        or_none(t.category),
        t.created_at,
    ]
}

/// The record line of a task: its fields joined by `|`.
pub open spec fn encoding(t: TaskView) -> Seq<char> {
    join_on(line_fields(t), '|')
}

/// What reading a record line gives: the first failure in the order field count,
/// identifier, priority, status; else the task.
pub open spec fn decoding(line: Seq<char>) -> Result<TaskView, ErrorView> {
    let f = split_on(line, '|');
    if f.len() != 7 {
        Err(ErrorView::Serialization("Expected 7 fields, got "@ + decimal(f.len())))
    } else if parsed_u32(f[0]) is None {
        Err(ErrorView::Parse("Invalid ID"@))
    } else if priority_named(f[3]) is None {
        Err(ErrorView::InvalidPriority(f[3]))
    } else if status_named(f[4]) is None {
        Err(ErrorView::InvalidStatus(f[4]))
    } else {
        Ok(
            TaskView {
                id: parsed_u32(f[0])->0,
                title: f[1],
                description: absent_if_none(f[2]),
                priority: priority_named(f[3])->0,
                status: status_named(f[4])->0,
                category: absent_if_none(f[5]),
                created_at: f[6],
            },
        )
    }
}

/// A task result seen through the views of its task or its error.
pub open spec fn outcome(r: Result<Task, TaskError>) -> Result<TaskView, ErrorView> {
    match r {
        Ok(t) => Ok(t@),
        Err(e) => Err(e@),
    }
}

impl Task {
    /// A new pending task with no description and no category. A title that is
    /// empty or only whitespace is refused.
    pub fn new(id: u32, title: String, priority: Priority) -> (r: Result<Task, TaskError>)
        ensures
            is_blank(title@) ==> r is Err && r->Err_0@ == ErrorView::Validation(
                "Title cannot be empty"@,
            ),
            !is_blank(title@) ==> r is Ok && r->Ok_0@ == (TaskView {
                id,
                title: title@,
                description: None,
                priority,
                status: Status::Pending,
                category: None,
                created_at: creation_stamp(),
            }),
    {
        if blank(title.as_str()) {
            return Err(TaskError::ValidationError("Title cannot be empty".to_owned()));
        }
        Ok(
            Task {
                id,
                title,
                description: None,
                priority,
                status: Status::Pending,
                category: None,
                created_at: Self::current_timestamp(),
            },
        )
    }

    pub fn with_description(self, desc: String) -> (r: Task)
        ensures
            r == (Task { description: Some(desc), ..self }),
    {
        let mut t = self;
        t.description = Some(desc);
        t
    }

    pub fn with_category(self, category: String) -> (r: Task)
        ensures
            r == (Task { category: Some(category), ..self }),
    {
        let mut t = self;
        t.category = Some(category);
        t
    }

    pub fn set_status(&mut self, status: Status)
        ensures
            *final(self) == (Task { status, ..*old(self) }),
    {
        self.status = status;
    }

    pub fn set_priority(&mut self, priority: Priority)
        ensures
            *final(self) == (Task { priority, ..*old(self) }),
    {
        self.priority = priority;
    }

    /// Replaces the title. Unlike `new`, this does not check it: the caller
    /// decides what a title may be.
    pub fn set_title(&mut self, title: String)
        ensures
            *final(self) == (Task { title, ..*old(self) }),
    {
        self.title = title;
    }

    pub fn is_completed(&self) -> (r: bool)
        ensures
            r == (self.status == Status::Completed),
    {
        self.status == Status::Completed
    }

    fn current_timestamp() -> (r: String)
        ensures
            r@ == creation_stamp(),
    {
        "2024-01-15 10:00:00".to_owned()
    }

    /// The one-line human-readable form.
    pub fn render(&self) -> (r: String)
        ensures
            r@ == rendering(self@),
    {
        let mut out = String::new();
        push_text(&mut out, "[");
        push_decimal(&mut out, self.id as u64);
        push_text(&mut out, "] [");
        push_text(&mut out, self.status.as_str());
        push_text(&mut out, "] [");
        push_text(&mut out, self.priority.as_str());
        push_text(&mut out, "] ");
        push_text(&mut out, self.title.as_str());
        match &self.category {
            Some(c) => {
                push_text(&mut out, " (");
                push_text(&mut out, c.as_str());
                push_text(&mut out, ")");
            },
            None => {},
        }
        assert(out@ =~= rendering(self@));
        out
    }
}

/// Records that can be written as one line of text and read back.
pub trait Serializable: Sized {
    /// The line that `serialize` writes.
    spec fn encoded(&self) -> Seq<char>;

    /// Whether `r` is what `deserialize` gives for the line `data`.
    spec fn decodes_to(data: Seq<char>, r: Result<Self, TaskError>) -> bool;

    fn serialize(&self) -> (r: String)
        ensures
            r@ == self.encoded(),
    ;

    fn deserialize(data: &str) -> (r: Result<Self, TaskError>)
        ensures
            Self::decodes_to(data@, r),
    ;
}

/// Records that carry an identifier which their owner assigns.
pub trait Identified: Sized {
    spec fn key(&self) -> u32;

    /// The same record under another identifier.
    spec fn rekeyed(&self, id: u32) -> Self;

    fn id(&self) -> (r: u32)
        ensures
            r == self.key(),
    ;

    fn set_id(&mut self, id: u32)
        ensures
            *final(self) == old(self).rekeyed(id),
            final(self).key() == id,
    ;
}

impl Serializable for Task {
    open spec fn encoded(&self) -> Seq<char> {
        encoding(self@)
    }

    open spec fn decodes_to(data: Seq<char>, r: Result<Task, TaskError>) -> bool {
        outcome(r) == decoding(data)
    }

    /// `id|title|description|priority|status|category|created_at`, with `None`
    /// for an absent description or category.
    fn serialize(&self) -> (r: String) {
        let mut id_text = String::new();
        push_decimal(&mut id_text, self.id as u64);
        let description = match &self.description {
            Some(d) => d.clone(),
            None => "None".to_owned(),
        };
        let category = match &self.category {
            Some(c) => c.clone(),
            None => "None".to_owned(),
        };
        let fields = vec![
            id_text,
            self.title.clone(),
            description,
            self.priority.as_str().to_owned(),
            self.status.as_str().to_owned(),
            category,
            self.created_at.clone(),
        ];
        assert(texts(fields@) =~= line_fields(self@));
        join_text(&fields, '|')
    }

    fn deserialize(data: &str) -> (r: Result<Task, TaskError>) {
        let parts = split_text(data, '|');
        let ghost f = split_on(data@, '|');
        assert(parts@.len() == f.len());
        if parts.len() != 7 {
            let mut msg = "Expected 7 fields, got ".to_owned();
            push_decimal(&mut msg, parts.len() as u64);
            return Err(TaskError::SerializationError(msg));
        }
        assert(forall|i: int| 0 <= i < 7 ==> parts@[i]@ == f[i]);
        let id = match parse_u32(parts[0].as_str()) {
            Some(v) => v,
            None => {
                return Err(TaskError::ParseError("Invalid ID".to_owned()));
            },
        };
        let priority = Priority::parse(parts[3].as_str())?;
        let status = Status::parse(parts[4].as_str())?;
        let none = "None".to_owned();
        let description = if parts[2] == none {
            None
        } else {
            Some(parts[2].clone())
        };
        let category = if parts[5] == none {
            None
        } else {
            Some(parts[5].clone())
        };
        Ok(
            Task {
                id,
                title: parts[1].clone(),
                description,
                priority,
                status,
                category,
                created_at: parts[6].clone(),
            },
        )
    }
}

impl Identified for Task {
    open spec fn key(&self) -> u32 {
        self.id
    }

    open spec fn rekeyed(&self, id: u32) -> Task {
        Task { id, ..*self }
    }

    fn id(&self) -> (r: u32) {
        self.id
    }

    fn set_id(&mut self, id: u32) {
        self.id = id;
    }
}

/// Optional text that a record line carries faithfully.
pub open spec fn opt_line_safe(o: Option<Seq<char>>) -> bool {
    match o {
        Some(s) => lacks(s, '|') && s != "None"@,
        None => true,
    }
}

/// A task that its record line carries faithfully: no text of it holds `|`, and
/// neither optional text is the word `None`.
pub open spec fn line_safe(t: TaskView) -> bool {
    &&& lacks(t.title, '|')
    &&& opt_line_safe(t.description)
    &&& opt_line_safe(t.category)
    &&& lacks(t.created_at, '|')
}

pub proof fn lemma_keyword_texts(p: Priority, st: Status)
    ensures
        priority_named(priority_text(p)) == Some(p),
        status_named(status_text(st)) == Some(st),
        lacks(priority_text(p), '|'),
        lacks(status_text(st), '|'),
        lacks("None"@, '|'),
        lacks(priority_text(p), '\n'),
        lacks(status_text(st), '\n'),
        lacks("None"@, '\n'),
{
    reveal_strlit("low");
    reveal_strlit("medium");
    reveal_strlit("high");
    reveal_strlit("critical");
    reveal_strlit("LOW");
    reveal_strlit("MEDIUM");
    reveal_strlit("HIGH");
    reveal_strlit("CRITICAL");
    reveal_strlit("pending");
    reveal_strlit("in_progress");
    reveal_strlit("inprogress");
    reveal_strlit("completed");
    reveal_strlit("complete");
    reveal_strlit("PENDING");
    reveal_strlit("IN_PROGRESS");
    reveal_strlit("COMPLETED");
    reveal_strlit("None");
    assert(folded("LOW"@) =~= folded("low"@));
    assert(folded("MEDIUM"@) =~= folded("medium"@));
    assert(folded("HIGH"@) =~= folded("high"@));
    assert(folded("CRITICAL"@) =~= folded("critical"@));
    assert(folded("PENDING"@) =~= folded("pending"@));
    assert(folded("IN_PROGRESS"@) =~= folded("in_progress"@));
    assert(folded("COMPLETED"@) =~= folded("completed"@));
}

/// Reading back the record line of a task view gives it back.
pub proof fn lemma_decoding_encoding(v: TaskView)
    requires
        line_safe(v),
    ensures
        decoding(encoding(v)) == Ok::<TaskView, ErrorView>(v),
{
    let f = line_fields(v);
    lemma_parse_decimal(v.id);
    lemma_keyword_texts(v.priority, v.status);
    assert forall|i: int| 0 <= i < f.len() implies lacks(#[trigger] f[i], '|') by {
        if i == 2 {
            assert(f[2] == or_none(v.description));
        }
    }
    lemma_split_join(f, '|');
    reveal_strlit("None");
    assert(absent_if_none(or_none(v.description)) == v.description);
    assert(absent_if_none(or_none(v.category)) == v.category);
}

/// Reading back the record line of a task gives the task, field for field, for
/// every task whose texts hold no `|` and whose optional texts are not `None`.
pub proof fn lemma_decode_encode(t: Task)
    requires
        line_safe(t@),
    ensures
        decoding(t.encoded()) == Ok::<TaskView, ErrorView>(t@),
{
    lemma_decoding_encoding(t@);
}

} // verus!
