//! What is asked of the file system, and what a file system holds.
//!
//! The searches of this crate do no input or output. A search says what it wants to know,
//! is given the answer, and goes on. [`FileSystem`] models a file system that stays as it
//! is for the time of a search; the searches are specified by what they find in one.

use crate::text;
use vstd::prelude::*;

verus! {

/// An entry of a directory.
#[derive(Debug)]
pub struct DirEntry {
    pub name: String,
    /// Whether the entry is a directory.
    pub is_dir: bool,
}

/// A question about the file system.
#[derive(Debug)]
pub enum Request {
    /// The text of a file.
    ReadText(String),
    /// Whether there is a file at the path.
    IsFile(String),
    /// The entries of a directory, in the order in which they are read.
    ListDir(String),
    /// When a file was last modified.
    ModifiedTime(String),
}

/// The answer to a question; nothing where the file system gave none.
#[derive(Debug)]
pub enum Answer {
    Text(Option<String>),
    Flag(bool),
    Entries(Option<Vec<DirEntry>>),
    /// Nanoseconds since the Unix epoch.
    Time(Option<i128>),
}

/// An entry of a directory, as a value.
pub struct Entry {
    pub name: Seq<char>,
    pub is_dir: bool,
}

/// A question about the file system, as a value.
pub enum Question {
    ReadText(Seq<char>),
    IsFile(Seq<char>),
    ListDir(Seq<char>),
    ModifiedTime(Seq<char>),
}

impl View for Request {
    type V = Question;

    open spec fn view(&self) -> Question {
        match self {
            Request::ReadText(path) => Question::ReadText(path@),
            Request::IsFile(path) => Question::IsFile(path@),
            Request::ListDir(path) => Question::ListDir(path@),
            Request::ModifiedTime(path) => Question::ModifiedTime(path@),
        }
    }
}

/// The entries of a directory, as values.
pub open spec fn entries(list: Seq<DirEntry>) -> Seq<Entry> {
    Seq::new(list.len(), |i: int| Entry { name: list[i].name@, is_dir: list[i].is_dir })
}

/// A file system that does not change.
pub struct FileSystem {
    /// The texts of the files that can be read as text, by path.
    pub texts: Map<Seq<char>, Seq<char>>,
    /// The paths of files.
    pub files: Set<Seq<char>>,
    /// The entries of the directories that can be read, by path.
    pub dirs: Map<Seq<char>, Seq<Entry>>,
    /// The modification times that are known, by path.
    pub times: Map<Seq<char>, int>,
}

/// Whether the answer is one to a question of this kind.
pub open spec fn fits(question: Question, answer: Answer) -> bool {
    match question {
        Question::ReadText(_) => answer is Text,
        Question::IsFile(_) => answer is Flag,
        Question::ListDir(_) => answer is Entries,
        Question::ModifiedTime(_) => answer is Time,
    }
}

impl FileSystem {
    /// The text at the path, if it can be read.
    pub open spec fn text(self, path: Seq<char>) -> Option<Seq<char>> {
        if self.texts.contains_key(path) {
            Some(self.texts[path])
        } else {
            None
        }
    }

    /// The modification time of the path, if it is known.
    pub open spec fn time(self, path: Seq<char>) -> Option<int> {
        if self.times.contains_key(path) {
            Some(self.times[path])
        } else {
            None
        }
    }

    /// Whether the answer is what this file system says to the question.
    pub open spec fn answers(self, question: Question, answer: Answer) -> bool {
        match (question, answer) {
            (Question::ReadText(path), Answer::Text(t)) => text::optional(t) == self.text(path),
            (Question::IsFile(path), Answer::Flag(b)) => b == self.files.contains(path),
            (Question::ListDir(path), Answer::Entries(None)) => !self.dirs.contains_key(path),
            (Question::ListDir(path), Answer::Entries(Some(list))) => self.dirs.contains_key(path)
                && self.dirs[path] == entries(list@),
            (Question::ModifiedTime(path), Answer::Time(t)) => match t {
                Some(time) => self.time(path) == Some(time as int),
                None => self.time(path) is None,
            },
            _ => false,
        }
    }
}

/// A file system answers with what it holds: with the text, the entries or the time that it has
/// for the path, and with nothing where it has none.
pub proof fn law_file_system_answers_with_what_it_holds(
    fs: FileSystem,
    path: Seq<char>,
    text: Option<String>,
    flag: bool,
    list: Option<Vec<DirEntry>>,
    time: Option<i128>,
)
    ensures
        fs.answers(Question::ReadText(path), Answer::Text(text)) <==> match text {
            Some(t) => fs.texts.contains_key(path) && fs.texts[path] == t@,
            None => !fs.texts.contains_key(path),
        },
        fs.answers(Question::IsFile(path), Answer::Flag(flag)) <==> (flag <==> fs.files.contains(
            path,
        )),
        fs.answers(Question::ListDir(path), Answer::Entries(list)) <==> match list {
            Some(l) => {
                &&& fs.dirs.contains_key(path)
                &&& fs.dirs[path].len() == l@.len()
                &&& forall|k: int|
                    0 <= k < l@.len() ==> (#[trigger] fs.dirs[path][k]).name == l@[k].name@
                        && fs.dirs[path][k].is_dir == l@[k].is_dir
            },
            None => !fs.dirs.contains_key(path),
        },
        fs.answers(Question::ModifiedTime(path), Answer::Time(time)) <==> match time {
            Some(t) => fs.times.contains_key(path) && fs.times[path] == t,
            None => !fs.times.contains_key(path),
        },
{
    if let Some(l) = list {
        if fs.dirs.contains_key(path) && fs.dirs[path].len() == l@.len() && (forall|k: int|
            0 <= k < l@.len() ==> (#[trigger] fs.dirs[path][k]).name == l@[k].name@
                && fs.dirs[path][k].is_dir == l@[k].is_dir) {
            assert forall|k: int| 0 <= k < l@.len() implies fs.dirs[path][k] == #[trigger] entries(
                l@,
            )[k] by {
                assert(fs.dirs[path][k].name == l@[k].name@);
            }
            assert(fs.dirs[path] =~= entries(l@));
        }
        if fs.dirs[path] == entries(l@) {
            assert forall|k: int| 0 <= k < l@.len() implies (#[trigger] fs.dirs[path][k]).name
                == l@[k].name@ && fs.dirs[path][k].is_dir == l@[k].is_dir by {
                assert(entries(l@)[k].name == l@[k].name@);
            }
        }
    }
}

/// A request asks of the path that it holds, and what its kind says.
pub proof fn law_request_asks_of_its_path(request: Request)
    ensures
        match request {
            Request::ReadText(path) => request@ == Question::ReadText(path@),
            Request::IsFile(path) => request@ == Question::IsFile(path@),
            Request::ListDir(path) => request@ == Question::ListDir(path@),
            Request::ModifiedTime(path) => request@ == Question::ModifiedTime(path@),
        },
{
}

} // verus!
