//! Whole-collection persistence: one record line per task, lines separated by
//! newlines. The store's file is read and written by its caller; this module
//! turns the collection into the file's text and back.
use vstd::prelude::*;
use vstd::string::*;
use crate::error::{ErrorView, TaskError};
use crate::task::{
    decoding, encoding, lemma_decoding_encoding, line_fields, line_safe, or_none, Serializable, Task,
    TaskView,
};
use crate::text::{
    blank, is_blank, is_space, join_on, join_text, lacks, lemma_join_lacks, lemma_split_join,
    split_on, split_text, texts,
};

verus! {

/// Where a collection of records is kept.
pub trait Storage<T> {
    fn save(&self, items: &[T]) -> Result<(), TaskError>;

    fn load(&self) -> Result<Vec<T>, TaskError>;
}

/// A store kept in one text file.
pub struct FileStorage {
    file_path: String,
}

impl View for FileStorage {
    type V = Seq<char>;

    /// The path of the file.
    closed spec fn view(&self) -> Seq<char> {
        self.file_path@
    }
}

impl FileStorage {
    pub fn new(file_path: String) -> (r: FileStorage)
        ensures
            r@ == file_path@,
    {
        FileStorage { file_path }
    }

    /// The path of the file.
    pub fn path(&self) -> (r: &str)
        ensures
            r@ == self@,
    {
        self.file_path.as_str()
    }
}

pub open spec fn task_views(s: Seq<Task>) -> Seq<TaskView> {
    s.map_values(|t: Task| t@)
}

/// The record line of each task.
pub open spec fn record_lines(s: Seq<TaskView>) -> Seq<Seq<char>> {
    s.map_values(|t: TaskView| encoding(t))
}

/// The text of a file holding the tasks: their record lines joined by newlines.
pub open spec fn file_text(s: Seq<TaskView>) -> Seq<char> {
    join_on(record_lines(s), '\n')
}

/// A line without the carriage return that ends it, if it has one.
pub open spec fn without_cr(s: Seq<char>) -> Seq<char> {
    if s.len() > 0 && s.last() == '\r' {
        s.drop_last()
    } else {
        s
    }
}

/// The lines of a text, as `str::lines` gives them: split at each newline, and a
/// carriage return just before a newline belongs to the line ending.
pub open spec fn file_lines(text: Seq<char>) -> Seq<Seq<char>> {
    let p = split_on(text, '\n');
    Seq::new(
        p.len(),
        |i: int|
            if i < p.len() - 1 {
                without_cr(p[i])
            } else {
                p[i]
            },
    )
}

/// What reading the lines gives: blank lines are skipped, every other line is a
/// record, and the first line that does not read stops it all with its error.
pub open spec fn decode_lines(lines: Seq<Seq<char>>) -> Result<Seq<TaskView>, ErrorView>
    decreases lines.len(),
{
    if lines.len() == 0 {
        Ok(Seq::empty())
    } else {
        match decode_lines(lines.drop_last()) {
            Err(e) => Err(e),
            Ok(done) => if is_blank(lines.last()) {
                Ok(done)
            } else {
                match decoding(lines.last()) {
                    Ok(t) => Ok(done.push(t)),
                    Err(e) => Err(e),
                }
            },
        }
    }
}

proof fn lemma_decode_lines_prefix(lines: Seq<Seq<char>>, j: int)
    requires
        0 <= j <= lines.len(),
        decode_lines(lines.subrange(0, j)) is Err,
    ensures
        decode_lines(lines) == decode_lines(lines.subrange(0, j)),
    decreases lines.len(),
{
    if j == lines.len() {
        assert(lines.subrange(0, j) =~= lines);
    } else {
        assert(lines.drop_last().subrange(0, j) =~= lines.subrange(0, j));
        lemma_decode_lines_prefix(lines.drop_last(), j);
    }
}

pub open spec fn opt_lacks(o: Option<Seq<char>>, c: char) -> bool {
    match o {
        Some(s) => lacks(s, c),
        None => true,
    }
}

/// A task that the file carries faithfully: its record line does, no text of it
/// holds a newline, and its creation stamp does not end in a carriage return.
pub open spec fn file_safe(t: TaskView) -> bool {
    &&& line_safe(t)
    &&& lacks(t.title, '\n')
    &&& opt_lacks(t.description, '\n')
    &&& opt_lacks(t.category, '\n')
    &&& lacks(t.created_at, '\n')
    &&& !(t.created_at.len() > 0 && t.created_at.last() == '\r')
}

proof fn lemma_record_line(t: TaskView)
    requires
        file_safe(t),
    ensures
        decoding(encoding(t)) == Ok::<TaskView, ErrorView>(t),
        lacks(encoding(t), '\n'),
        !is_blank(encoding(t)),
        without_cr(encoding(t)) == encoding(t),
{
    lemma_decoding_encoding(t);
    let f = line_fields(t);
    crate::text::lemma_parse_decimal(t.id);
    crate::task::lemma_keyword_texts(t.priority, t.status);
    assert forall|i: int| 0 <= i < f.len() implies lacks(#[trigger] f[i], '\n') by {
        if i == 2 {
            assert(f[2] == or_none(t.description));
        }
        if i == 5 {
            assert(f[5] == or_none(t.category));
        }
    }
    lemma_join_lacks(f, '|', '\n');
    let head = join_on(f.drop_last(), '|');
    let line = encoding(t);
    assert(line == head.push('|') + t.created_at);
    assert(line[head.len() as int] == '|');
    assert(!is_space(line[head.len() as int]));
    if t.created_at.len() == 0 {
        assert(line.last() == '|');
    } else {
        assert(line.last() == t.created_at.last());
    }
}

proof fn lemma_decode_record_lines(s: Seq<TaskView>)
    requires
        forall|i: int| 0 <= i < s.len() ==> file_safe(#[trigger] s[i]),
    ensures
        decode_lines(record_lines(s)) == Ok::<Seq<TaskView>, ErrorView>(
            s,
        ),
    decreases s.len(),
{
    if s.len() > 0 {
        let lines = record_lines(s);
        let init = s.drop_last();
        assert(lines.drop_last() =~= record_lines(init));
        assert forall|i: int| 0 <= i < init.len() implies file_safe(#[trigger] init[i]) by {
            assert(init[i] == s[i]);
        }
        lemma_decode_record_lines(init);
        assert(file_safe(s[s.len() - 1]));
        lemma_record_line(s.last());
        assert(lines.last() == encoding(s.last()));
        assert(init.push(s.last()) =~= s);
    } else {
        assert(record_lines(s) =~= Seq::<Seq<char>>::empty());
        assert(s =~= Seq::<TaskView>::empty());
    }
}

/// Loading the text that saving writes gives the same tasks, in the same order,
/// field for field, for tasks that the file carries faithfully.
pub proof fn lemma_load_after_save(items: Seq<Task>)
    requires
        forall|i: int| 0 <= i < items.len() ==> file_safe(#[trigger] items[i]@),
    ensures
        decode_lines(file_lines(file_text(task_views(items)))) == Ok::<Seq<TaskView>, ErrorView>(
            task_views(items),
        ),
{
    let s = task_views(items);
    assert forall|i: int| 0 <= i < s.len() implies file_safe(#[trigger] s[i]) by {
        assert(s[i] == items[i]@);
    }
    let lines = record_lines(s);
    if s.len() == 0 {
        assert(file_text(s) =~= Seq::<char>::empty());
        assert(split_on(Seq::<char>::empty(), '\n') =~= seq![Seq::<char>::empty()]);
        let fl = file_lines(file_text(s));
        assert(fl =~= seq![Seq::<char>::empty()]);
        assert(fl.drop_last() =~= Seq::<Seq<char>>::empty());
        assert(is_blank(fl.last()));
        assert(s =~= Seq::<TaskView>::empty());
        assert(decode_lines(fl.drop_last()) == Ok::<Seq<TaskView>, ErrorView>(Seq::empty()));
        assert(decode_lines(fl) == Ok::<Seq<TaskView>, ErrorView>(s));
    } else {
        assert forall|i: int| 0 <= i < lines.len() implies lacks(#[trigger] lines[i], '\n') by {
            lemma_record_line(s[i]);
        }
        lemma_split_join(lines, '\n');
        assert forall|i: int| 0 <= i < lines.len() implies without_cr(#[trigger] lines[i])
            == lines[i] by {
            lemma_record_line(s[i]);
        }
        assert(file_lines(file_text(s)) =~= lines);
        lemma_decode_record_lines(s);
        assert(decode_lines(lines) == Ok::<Seq<TaskView>, ErrorView>(s));
    }
}

/// The file text for a collection of tasks.
pub fn encode_records(items: &[Task]) -> (r: String)
    ensures
        r@ == file_text(task_views(items@)),
{
    let mut lines: Vec<String> = Vec::new();
    let mut i: usize = 0;
    while i < items.len()
        invariant
            i <= items@.len(),
            texts(lines@) == record_lines(task_views(items@).subrange(0, i as int)),
        decreases items@.len() - i,
    {
        let line = items[i].serialize();
        let ghost before = lines@;
        proof {
            assert(line@ == encoding(task_views(items@)[i as int]));
        }
        lines.push(line);
        i = i + 1;
        proof {
            assert(texts(lines@) =~= texts(before).push(line@));
            assert(texts(lines@) =~= record_lines(task_views(items@).subrange(0, i as int)));
        }
    }
    proof {
        assert(task_views(items@).subrange(0, i as int) =~= task_views(items@));
    }
    join_text(&lines, '\n')
}

/// The tasks of a file, given its text, or `None` when the file does not exist:
/// a missing file holds no tasks.
pub fn decode_records(content: Option<&str>) -> (r: Result<Vec<Task>, TaskError>)
    ensures
        content is None ==> r is Ok && r->Ok_0@.len() == 0,
        content matches Some(c) ==> match r {
            Ok(v) => decode_lines(file_lines(c@)) == Ok::<Seq<TaskView>, ErrorView>(
                task_views(v@),
            ),
            Err(e) => decode_lines(file_lines(c@)) == Err::<Seq<TaskView>, ErrorView>(e@),
        },
{
    let text = match content {
        Some(c) => c,
        None => {
            return Ok(Vec::new());
        },
    };
    let pieces = split_text(text, '\n');
    let ghost lines = file_lines(text@);
    let mut out: Vec<Task> = Vec::new();
    let mut i: usize = 0;
    proof {
        assert(lines.subrange(0, 0) =~= Seq::<Seq<char>>::empty());
        assert(task_views(out@) =~= Seq::<TaskView>::empty());
    }
    while i < pieces.len()
        invariant
            content == Some(text),
            i <= pieces@.len(),
            texts(pieces@) == split_on(text@, '\n'),
            lines == file_lines(text@),
            decode_lines(lines.subrange(0, i as int)) == Ok::<Seq<TaskView>, ErrorView>(
                task_views(out@),
            ),
        decreases pieces@.len() - i,
    {
        let piece = pieces[i].as_str();
        let n = piece.unicode_len();
        let line = if i + 1 < pieces.len() && n > 0 && piece.get_char(n - 1) == '\r' {
            piece.substring_char(0, n - 1)
        } else {
            piece
        };
        proof {
            assert(line@ =~= lines[i as int]);
            assert(lines.subrange(0, i + 1).drop_last() =~= lines.subrange(0, i as int));
        }
        if !blank(line) {
            match Task::deserialize(line) {
                Ok(t) => {
                    let ghost before = out@;
                    out.push(t);
                    proof {
                        assert(task_views(out@) =~= task_views(before).push(t@));
                    }
                },
                Err(e) => {
                    proof {
                        lemma_decode_lines_prefix(lines, i + 1);
                    }
                    return Err(e);
                },
            }
        }
        i = i + 1;
    }
    proof {
        assert(lines.subrange(0, i as int) =~= lines);
    }
    Ok(out)
}

} // verus!
