//! The failure kinds shared by every layer of the store.
use vstd::prelude::*;
use crate::text::{decimal, push_decimal, push_text};

verus! {

#[verifier::external_type_specification]
#[verifier::external_body]
pub struct ExIoError(std::io::Error);

#[derive(Debug)]
pub enum TaskError {
    IoError(std::io::Error),
    ParseError(String),
    ValidationError(String),
    NotFound(u32),
    InvalidPriority(String),
    InvalidStatus(String),
    SerializationError(String),
}

/// What a `TaskError` says, with its texts as character sequences; a file-system
/// failure is seen only as such.
pub enum ErrorView {
    Io,
    Parse(Seq<char>),
    Validation(Seq<char>),
    NotFound(u32),
    InvalidPriority(Seq<char>),
    InvalidStatus(Seq<char>),
    Serialization(Seq<char>),
}

impl View for TaskError {
    type V = ErrorView;

    open spec fn view(&self) -> ErrorView {
        match self {
            TaskError::IoError(_) => ErrorView::Io,
            TaskError::ParseError(m) => ErrorView::Parse(m@),
            TaskError::ValidationError(m) => ErrorView::Validation(m@),
            TaskError::NotFound(id) => ErrorView::NotFound(*id),
            TaskError::InvalidPriority(p) => ErrorView::InvalidPriority(p@),
            TaskError::InvalidStatus(s) => ErrorView::InvalidStatus(s@),
            TaskError::SerializationError(m) => ErrorView::Serialization(m@),
        }
    }
}

impl From<std::io::Error> for TaskError {
    fn from(err: std::io::Error) -> (r: TaskError) {
        TaskError::IoError(err)
    }
}

impl vstd::std_specs::convert::FromSpecImpl<std::io::Error> for TaskError {
    open spec fn obeys_from_spec() -> bool {
        true
    }

    open spec fn from_spec(v: std::io::Error) -> TaskError {
        TaskError::IoError(v)
    }
}

/// Relies on the `Display` impl of `std::io::Error`; its wording comes from the
/// operating system, so nothing is claimed of it.
#[verifier::external_body]
fn io_error_text(err: &std::io::Error) -> String {
    err.to_string()
}

/// The user-facing message of an error other than a file-system failure.
pub open spec fn message_of(e: ErrorView) -> Seq<char> {
    match e {
        ErrorView::Io => "IO error: "@,
        ErrorView::Parse(m) => "Parse error: "@ + m,
        ErrorView::Validation(m) => "Validation error: "@ + m,
        ErrorView::NotFound(id) => "Task #"@ + decimal(id as nat) + " not found"@,
        ErrorView::InvalidPriority(p) => "Invalid priority: "@ + p,
        ErrorView::InvalidStatus(s) => "Invalid status: "@ + s,
        ErrorView::Serialization(m) => "Serialization error: "@ + m,
    }
}

impl TaskError {
    /// The user-facing message. For a file-system failure it is `IO error: `
    /// followed by the system's own description.
    pub fn message(&self) -> (r: String)
        ensures
            self@ is Io ==> r@.subrange(0, message_of(self@).len() as int) == message_of(self@),
            !(self@ is Io) ==> r@ == message_of(self@),
    {
        let mut out = String::new();
        match self {
            TaskError::IoError(err) => {
                push_text(&mut out, "IO error: ");
                let detail = io_error_text(err);
                let ghost head = out@;
                push_text(&mut out, detail.as_str());
                assert(out@.subrange(0, head.len() as int) =~= head);
            },
            TaskError::ParseError(m) => {
                push_text(&mut out, "Parse error: ");
                push_text(&mut out, m.as_str());
            },
            TaskError::ValidationError(m) => {
                push_text(&mut out, "Validation error: ");
                push_text(&mut out, m.as_str());
            },
            TaskError::NotFound(id) => {
                push_text(&mut out, "Task #");
                push_decimal(&mut out, *id as u64);
                push_text(&mut out, " not found");
            },
            TaskError::InvalidPriority(p) => {
                push_text(&mut out, "Invalid priority: ");
                push_text(&mut out, p.as_str());
            },
            TaskError::InvalidStatus(s) => {
                push_text(&mut out, "Invalid status: ");
                push_text(&mut out, s.as_str());
            },
            TaskError::SerializationError(m) => {
                push_text(&mut out, "Serialization error: ");
                push_text(&mut out, m.as_str());
            },
        }
        assert(out@ =~= message_of(self@) || self@ is Io);
        out
    }
}

} // verus!
