//! Files that hold what was collected: one for each symbol, day and session of the process.
//!
//! A session never writes to a file of an earlier one, so a crash spoils the end of its own files
//! only.

use vstd::prelude::*;
use vstd::string::*;
use crate::clock::{date_label, date_text, day, day_of, is_labelled, lemma_in_days};
use crate::decimal::law_integers_read_back;
use crate::table::Table;
use crate::text::{
    holds, i64_text, int_chars, lemma_holds_more, lemma_holds_three, lowercase, to_lower,
};

verus! {

/// The name of the file of a day.
pub open spec fn name_chars(path: Seq<char>, day: int, session: Seq<char>) -> Seq<char> {
    path + "_"@ + date_label(day) + "_"@ + session + ".gz"@
}

/// The line that holds a text and the time of its arrival.
pub open spec fn line_chars(nanos: i64, data: Seq<char>) -> Seq<char> {
    int_chars(nanos as int) + " "@ + data + "\n"@
}

/// The line that holds a text and the time of its arrival.
fn line_text(nanos: i64, data: &str) -> (s: String)
    ensures
        s@ == line_chars(nanos, data@),
{
    i64_text(nanos).concat(" ").concat(data).concat("\n")
}

/// A file that is replaced by a new one every day. It is not open where a new one could not be
/// opened.
#[derive(Debug)]
pub struct RotatingFile {
    date: i64,
    path: String,
    session: String,
    open: bool,
}

/// What a [`RotatingFile`] holds.
pub struct FileView {
    pub day: int,
    pub path: Seq<char>,
    pub session: Seq<char>,
    pub open: bool,
}

impl View for RotatingFile {
    type V = FileView;

    closed spec fn view(&self) -> FileView {
        FileView {
            day: self.date as int,
            path: self.path@,
            session: self.session@,
            open: self.open,
        }
    }
}

impl FileView {
    /// An open file of the day of a time.
    pub open spec fn of(nanos: i64, path: Seq<char>, session: Seq<char>) -> FileView {
        FileView { day: day_of(nanos as int), path, session, open: true }
    }

    /// Whether `r` is what to do to write a text at a time: another file is opened where the day is
    /// another.
    pub open spec fn steps(self, nanos: i64, data: Seq<char>, r: FileStep) -> bool {
        &&& r.line@ == line_chars(nanos, data)
        &&& match r.open {
            Some(name) => {
                &&& self.day != day_of(nanos as int)
                &&& is_labelled(day_of(nanos as int))
                &&& name@ == name_chars(self.path, day_of(nanos as int), self.session)
            },
            None => self.day == day_of(nanos as int),
        }
    }

    /// The file after a new one was opened.
    pub open spec fn opened(self, nanos: i64) -> FileView {
        FileView { day: day_of(nanos as int), open: true, ..self }
    }

    /// The file after a new one could not be opened.
    pub open spec fn lost(self) -> FileView {
        FileView { open: false, ..self }
    }
}

/// What to do to write to a file: finish it and open another, where there is one to open, and write
/// the line.
#[derive(Debug)]
pub struct FileStep {
    pub open: Option<String>,
    pub line: String,
}

/// The name of a file.
pub fn file_name(path: &str, label: &str, session: &str) -> (s: String)
    ensures
        s@ == path@ + "_"@ + label@ + "_"@ + session@ + ".gz"@,
{
    path.to_owned().concat("_").concat(label).concat("_").concat(session).concat(".gz")
}

impl RotatingFile {
    /// The name of the file of the day of a time, which is opened to append to.
    pub fn create(nanos: i64, path: &str, session: &str) -> (s: String)
        ensures
            s@ == name_chars(path@, day_of(nanos as int), session@),
            is_labelled(day_of(nanos as int)),
    {
        proof {
            lemma_in_days(nanos);
        }
        let label = date_text(nanos);
        file_name(path, label.as_str(), session)
    }

    /// A file that was opened at a time.
    pub fn new(nanos: i64, path: String, session: String) -> (f: RotatingFile)
        ensures
            f@ == FileView::of(nanos, path@, session@),
    {
        RotatingFile { date: day(nanos), path, session, open: true }
    }

    /// What to do to write a text that arrived at a time. Another file is opened where the day is
    /// another.
    pub fn write(&self, nanos: i64, data: &str) -> (r: FileStep)
        requires
            self@.open,
        ensures
            self@.steps(nanos, data@, r),
    {
        let open = if day(nanos) != self.date {
            Some(RotatingFile::create(nanos, self.path.as_str(), self.session.as_str()))
        } else {
            None
        };
        FileStep { open, line: line_text(nanos, data) }
    }

    /// Records that another file was opened at a time.
    pub fn opened(&mut self, nanos: i64)
        ensures
            final(self)@ == old(self)@.opened(nanos),
    {
        self.date = day(nanos);
        self.open = true;
    }

    /// Records that another file could not be opened.
    pub fn lost(&mut self)
        ensures
            final(self)@ == old(self)@.lost(),
    {
        self.open = false;
    }
}

/// The files of all symbols, by symbol in lower case.
#[derive(Debug)]
pub struct Writer {
    path: String,
    session: String,
    file: Table<RotatingFile>,
}

/// What a [`Writer`] holds.
pub struct WriterView {
    pub path: Seq<char>,
    pub session: Seq<char>,
    pub files: Map<Seq<char>, FileView>,
}

impl View for Writer {
    type V = WriterView;

    closed spec fn view(&self) -> WriterView {
        WriterView {
            path: self.path@,
            session: self.session@,
            files: self.file@.map_values(|f: RotatingFile| f@),
        }
    }
}

impl WriterView {
    /// The path of the files of a symbol.
    pub open spec fn path_of(self, key: Seq<char>) -> Seq<char> {
        self.path + "/"@ + key
    }

    /// Whether the file of a symbol is there but not open.
    pub open spec fn is_lost(self, key: Seq<char>) -> bool {
        self.files.contains_key(key) && !self.files[key].open
    }

    /// Whether a file is to be opened to write for a symbol at a time.
    pub open spec fn opens(self, key: Seq<char>, nanos: i64) -> bool {
        !self.files.contains_key(key) || self.files[key].day != day_of(nanos as int)
    }

    /// The name of the file that is opened for a symbol at a time.
    pub open spec fn name(self, key: Seq<char>, nanos: i64) -> Seq<char> {
        if self.files.contains_key(key) {
            name_chars(self.files[key].path, day_of(nanos as int), self.files[key].session)
        } else {
            name_chars(self.path_of(key), day_of(nanos as int), self.session)
        }
    }

    /// Whether `r` is what to do to write a text for a symbol at a time.
    pub open spec fn writes(
        self,
        key: Seq<char>,
        nanos: i64,
        data: Seq<char>,
        r: Option<WriteStep>,
    ) -> bool {
        match r {
            Some(step) => {
                &&& !self.is_lost(key)
                &&& step.key@ == key
                &&& step.line@ == line_chars(nanos, data)
                &&& match step.open {
                    Some(name) => {
                        &&& self.opens(key, nanos)
                        &&& is_labelled(day_of(nanos as int))
                        &&& name@ == self.name(key, nanos)
                    },
                    None => !self.opens(key, nanos),
                }
            },
            None => self.is_lost(key),
        }
    }

    /// The files after one was opened for a symbol at a time.
    pub open spec fn opened(self, key: Seq<char>, nanos: i64) -> WriterView {
        WriterView {
            files: self.files.insert(
                key,
                if self.files.contains_key(key) {
                    self.files[key].opened(nanos)
                } else {
                    FileView::of(nanos, self.path_of(key), self.session)
                },
            ),
            ..self
        }
    }

    /// The files after one could not be opened for a symbol. Where there was none before there is
    /// none now.
    pub open spec fn lost(self, key: Seq<char>) -> WriterView {
        if self.files.contains_key(key) {
            WriterView { files: self.files.insert(key, self.files[key].lost()), ..self }
        } else {
            self
        }
    }
}

/// What to do to write for a symbol: finish its file where there is one and open another, where
/// there is one to open, and write the line.
#[derive(Debug)]
pub struct WriteStep {
    pub key: String,
    pub open: Option<String>,
    pub line: String,
}

impl Writer {
    /// What holds of every writer.
    pub closed spec fn wf(self) -> bool {
        self.file.wf()
    }

    /// A writer without files.
    pub fn new(path: &str, session: &str) -> (w: Writer)
        ensures
            w.wf(),
            w@.path == path@,
            w@.session == session@,
            w@.files.is_empty(),
    {
        let w = Writer {
            path: path.to_owned(),
            session: session.to_owned(),
            file: Table::new(),
        };
        assert(w@.files.dom() =~= Set::empty());
        w
    }

    /// What to do to write a text of a symbol that arrived at a time; nothing can be done where its
    /// file is there but not open.
    pub fn write(&self, nanos: i64, symbol: &str, data: &str) -> (r: Option<WriteStep>)
        requires
            self.wf(),
        ensures
            self@.writes(lowercase(symbol@), nanos, data@, r),
    {
        let key = to_lower(symbol);
        match self.file.get(key.as_str()) {
            Some(f) => {
                if !f.open {
                    return None;
                }
                let step = f.write(nanos, data);
                Some(WriteStep { key, open: step.open, line: step.line })
            },
            None => {
                let path = self.path.clone().concat("/").concat(key.as_str());
                let name = RotatingFile::create(nanos, path.as_str(), self.session.as_str());
                Some(WriteStep { key, open: Some(name), line: line_text(nanos, data) })
            },
        }
    }

    /// Records that a file was opened for a symbol at a time.
    pub fn opened(&mut self, key: &str, nanos: i64)
        requires
            old(self).wf(),
        ensures
            final(self).wf(),
            final(self)@ == old(self)@.opened(key@, nanos),
    {
        let ghost before = self@;
        let f = match self.file.take(key) {
            Some(f) => {
                let mut f = f;
                f.opened(nanos);
                f
            },
            None => RotatingFile::new(
                nanos,
                self.path.clone().concat("/").concat(key),
                self.session.clone(),
            ),
        };
        self.file.set(key, f);
        assert(self@.files =~= before.opened(key@, nanos).files);
    }

    /// Records that a file could not be opened for a symbol.
    pub fn lost(&mut self, key: &str)
        requires
            old(self).wf(),
        ensures
            final(self).wf(),
            final(self)@ == old(self)@.lost(key@),
    {
        let ghost before = self@;
        if let Some(f) = self.file.take(key) {
            let mut f = f;
            f.lost();
            self.file.set(key, f);
        }
        assert(self@.files =~= before.lost(key@).files);
    }
}

/// What was collected on a day goes to the file of that day: once the file that a write asks for is
/// open, the file of the symbol is that of the day, and the next write of the day opens none.
pub proof fn law_lines_go_to_the_file_of_their_day(v: WriterView, key: Seq<char>, nanos: i64)
    ensures
        ({
            let after = if v.opens(key, nanos) {
                v.opened(key, nanos)
            } else {
                v
            };
            &&& after.files.contains_key(key)
            &&& after.files[key].day == day_of(nanos as int)
            &&& forall|later: i64|
                day_of(later as int) == day_of(nanos as int) ==> !#[trigger] after.opens(key, later)
        }),
{
}

/// Files of different symbols or days have different names. The days are such as have labels of
/// their own, as every day has that a file was named for.
pub proof fn law_files_have_different_names(
    path: Seq<char>,
    day: int,
    other_path: Seq<char>,
    other_day: int,
    session: Seq<char>,
)
    requires
        is_labelled(day),
        is_labelled(other_day),
        name_chars(path, day, session) == name_chars(other_path, other_day, session),
    ensures
        path == other_path,
        day == other_day,
{
    reveal_strlit("_");
    reveal_strlit(".gz");
    let a = name_chars(path, day, session);
    let b = name_chars(other_path, other_day, session);
    let n = path.len() as int;
    assert(date_label(day).len() == 8 && date_label(other_day).len() == 8);
    assert(a.len() == path.len() + session.len() + 13);
    assert(b.len() == other_path.len() + session.len() + 13);
    assert(path.len() == other_path.len());
    assert(path =~= other_path) by {
        assert forall|i: int| 0 <= i < n implies path[i] == other_path[i] by {
            assert(a[i] == path[i]);
            assert(b[i] == other_path[i]);
        }
    }
    assert(date_label(day) =~= date_label(other_day)) by {
        assert forall|i: int| 0 <= i < 8 implies date_label(day)[i] == date_label(other_day)[i] by {
            assert(a[n + 1 + i] == date_label(day)[i]);
            assert(b[n + 1 + i] == date_label(other_day)[i]);
        }
    }
}

/// Files of one symbol and session are those of one writer: opening or losing the file of a symbol
/// leaves the files of the others as they are.
pub proof fn law_other_files_stay(v: WriterView, key: Seq<char>, nanos: i64, other: Seq<char>)
    requires
        other != key,
        v.files.contains_key(other),
    ensures
        v.opened(key, nanos).files.contains_key(other),
        v.opened(key, nanos).files[other] == v.files[other],
        v.lost(key).files.contains_key(other),
        v.lost(key).files[other] == v.files[other],
{
}

/// A line reads back as the time and the text that it holds: the time stands before the first space,
/// the text after it and before the end of the line. So no two different times or texts make the same
/// line.
pub proof fn law_lines_read_back(nanos: i64, data: Seq<char>, other: i64, text: Seq<char>)
    ensures
        line_chars(nanos, data).last() == '\n',
        line_chars(nanos, data)[int_chars(nanos as int).len() as int] == ' ',
        line_chars(nanos, data).take(int_chars(nanos as int).len() as int) == int_chars(
            nanos as int,
        ),
        line_chars(nanos, data).drop_last().skip(int_chars(nanos as int).len() + 1int) == data,
        line_chars(nanos, data) == line_chars(other, text) ==> nanos == other && data == text,
{
    reveal_strlit(" ");
    reveal_strlit("\n");
    let a = int_chars(nanos as int);
    let b = int_chars(other as int);
    let x = line_chars(nanos, data);
    let y = line_chars(other, text);
    assert(x.take(a.len() as int) =~= a);
    assert(x.drop_last().skip(a.len() + 1int) =~= data);
    assert(y.take(b.len() as int) =~= b);
    assert(y.drop_last().skip(b.len() + 1int) =~= text);
    assert(x[a.len() as int] == ' ');
    assert(y[b.len() as int] == ' ');
    law_integers_read_back(nanos as int, other as int);
    if x == y {
        if a.len() < b.len() {
            assert(y[a.len() as int] == b[a.len() as int]);
            law_integers_read_back(other as int, nanos as int);
        } else if b.len() < a.len() {
            assert(x[b.len() as int] == a[b.len() as int]);
        }
        assert(a == b);
    }
}

/// The name of a file begins with its path and ends with its session: files of different sessions
/// have different names.
pub proof fn law_sessions_have_their_own_files(
    path: Seq<char>,
    day: int,
    session: Seq<char>,
    other_day: int,
    other: Seq<char>,
)
    requires
        is_labelled(day),
        is_labelled(other_day),
    ensures
        (path + "_"@).is_prefix_of(name_chars(path, day, session)),
        holds(name_chars(path, day, session), "_"@ + session + ".gz"@),
        holds(name_chars(path, day, session), "_"@ + date_label(day) + "_"@),
        name_chars(path, day, session) == name_chars(path, other_day, other) ==> session == other
            && day == other_day,
{
    reveal_strlit("_");
    reveal_strlit(".gz");
    let a = name_chars(path, day, session);
    let b = name_chars(path, other_day, other);
    let n = path.len() as int;
    assert(a.subrange(0, n + 1) =~= path + "_"@);
    lemma_holds_three(path + "_"@ + date_label(day), "_"@, session, ".gz"@);
    lemma_holds_three(path, "_"@, date_label(day), "_"@);
    lemma_holds_more(path + "_"@ + date_label(day) + "_"@, session, "_"@ + date_label(day) + "_"@);
    lemma_holds_more(
        path + "_"@ + date_label(day) + "_"@ + session,
        ".gz"@,
        "_"@ + date_label(day) + "_"@,
    );
    assert(date_label(day).len() == 8 && date_label(other_day).len() == 8);
    if a == b {
        assert(a.len() == n + session.len() + 13);
        assert(b.len() == n + other.len() + 13);
        assert(session =~= other) by {
            assert forall|i: int| 0 <= i < session.len() implies session[i] == other[i] by {
                assert(a[n + 10 + i] == session[i]);
                assert(b[n + 10 + i] == other[i]);
            }
        }
        law_files_have_different_names(path, day, path, other_day, session);
    }
}

/// The file of a symbol keeps its path and its session for good: those of the writer and the symbol
/// where the writer opened it. What opens it gives it the day of the time and makes it open, what
/// loses it makes it closed and changes nothing else, and a writer loses no file that it does not
/// have.
pub proof fn law_files_keep_their_names(v: WriterView, key: Seq<char>, nanos: i64)
    ensures
        ({
            let after = v.opened(key, nanos);
            let lost = v.lost(key);
            &&& after.path == v.path
            &&& after.session == v.session
            &&& after.files.contains_key(key)
            &&& after.files[key].open
            &&& after.files[key].day == day_of(nanos as int)
            &&& v.files.contains_key(key) ==> after.files[key].path == v.files[key].path
                && after.files[key].session == v.files[key].session
            &&& !v.files.contains_key(key) ==> after.files[key].path == v.path + "/"@ + key
                && after.files[key].session == v.session
            &&& lost.path == v.path
            &&& lost.session == v.session
            &&& lost.files.contains_key(key) == v.files.contains_key(key)
            &&& v.files.contains_key(key) ==> {
                &&& !lost.files[key].open
                &&& lost.files[key].day == v.files[key].day
                &&& lost.files[key].path == v.files[key].path
                &&& lost.files[key].session == v.files[key].session
            }
            &&& lost.is_lost(key) <==> v.files.contains_key(key)
            &&& !after.is_lost(key)
        }),
        v.opened(key, nanos).opened(key, nanos) == v.opened(key, nanos),
        v.lost(key).lost(key) == v.lost(key),
{
    assert(v.opened(key, nanos).opened(key, nanos).files =~= v.opened(key, nanos).files);
    assert(v.lost(key).lost(key).files =~= v.lost(key).files);
}

/// A text of a symbol is written as the line of its time and text to the file of the symbol, which is
/// opened first where there is none or where it is that of another day, under the path and the session
/// of the file and the day of the text. Nothing is written where the file was lost, and only there.
pub proof fn law_writes_open_the_file_of_the_day(
    v: WriterView,
    key: Seq<char>,
    nanos: i64,
    data: Seq<char>,
    r: Option<WriteStep>,
)
    requires
        v.writes(key, nanos, data, r),
    ensures
        r is None <==> v.files.contains_key(key) && !v.files[key].open,
        r is Some ==> {
            let step = r->0;
            &&& step.key@ == key
            &&& step.line@ == line_chars(nanos, data)
            &&& step.open is Some <==> !v.files.contains_key(key) || v.files[key].day != day_of(
                nanos as int,
            )
            &&& step.open is Some && !v.files.contains_key(key) ==> step.open->0@ == name_chars(
                v.path + "/"@ + key,
                day_of(nanos as int),
                v.session,
            )
            &&& step.open is Some && v.files.contains_key(key) ==> step.open->0@ == name_chars(
                v.files[key].path,
                day_of(nanos as int),
                v.files[key].session,
            )
        },
{
}

/// A file is replaced just where the day is another, by the file of the same path and session and of
/// the day of the text; what is written is the line of its time and text either way.
pub proof fn law_files_are_replaced_every_day(f: FileView, nanos: i64, data: Seq<char>, r: FileStep)
    requires
        f.steps(nanos, data, r),
    ensures
        r.open is Some <==> f.day != day_of(nanos as int),
        r.open is Some ==> r.open->0@ == name_chars(f.path, day_of(nanos as int), f.session),
        r.line@ == line_chars(nanos, data),
        f.opened(nanos).day == day_of(nanos as int),
        f.opened(nanos).open,
        f.opened(nanos).path == f.path,
        f.opened(nanos).session == f.session,
        !f.lost().open,
        f.lost().day == f.day,
        FileView::of(nanos, f.path, f.session) == f.opened(nanos),
{
}

} // verus!
