//! The event log: one line for each event, appended to a file that is set aside
//! once it has grown too long.

use crate::agent::approval::Scope;
use crate::attrib::Attribution;
use crate::paths::{bare, last_part, names_file, stem, unextended, without_extension};
use crate::text::{concat2, tail_after, tail_is_suffix};
use vstd::prelude::*;

verus! {

/// What an event records.
#[derive(Debug, Clone, Copy, PartialEq, Eq, Structural)]
pub enum Kind {
    /// A client asked which keys exist. Cheap, frequent, no signature.
    ListIdentities,
    /// A real signature: the event that matters.
    Sign,
    /// ssh telling the agent which host this session is bound to.
    SessionBind,
    Other,
}

/// When an event was recorded, and how long the work took.
#[derive(Debug, Clone, Copy)]
pub struct Stamp {
    /// Nanoseconds since the Unix epoch.
    pub ts_nanos: u64,
    pub duration_ms: u64,
}

/// One event.
pub struct Event<'a> {
    pub stamp: Stamp,
    pub kind: Kind,
    pub who: &'a Attribution,
    /// The fingerprint of the key involved, when there is one.
    pub key_fp: Option<String>,
    pub key_comment: Option<String>,
    /// Which upstream actually holds the key.
    pub upstream: Option<String>,
    /// The fingerprint of the host key that ssh bound the session to.
    pub bound_host_fp: Option<String>,
    /// The scope of the approval, for a signature of our own key.
    pub scope: Option<Scope>,
    /// Whether an earlier approval covered the signature.
    pub reused: bool,
    pub outcome: String,
}

// ---------------------------------------------------------------------------
// The log file
// ---------------------------------------------------------------------------

/// The log file.
pub struct Log {
    pub path: String,
    /// The size beyond which the file is set aside.
    pub max_bytes: u64,
}

/// What happened on the way to a line in the log.
pub enum LogEvent {
    /// The event as a line, unless it could not be written as one, and whether
    /// the file is open.
    Serialised(Option<String>, bool),
    /// The file was opened for this text, or could not be.
    Opened(String, bool),
    /// The text was written; the size of the file, if it is known.
    Written(Option<u64>),
}

/// What to do next on the way to a line in the log.
pub enum LogAction {
    /// Open the file for appending, for the user alone, to write this text.
    Open(String),
    /// Append this text.
    Write(String),
    /// Set the file aside under this name, in place of the one set aside before,
    /// and open a new one.
    Rotate(String),
    /// Nothing more.
    Finish,
}

/// The extension of a log file that was set aside, with the dot before it.
pub const ASIDE: &'static str = ".jsonl.1";

/// The name that the log file `path` is set aside under: `jsonl.1` stands for its
/// extension.
pub open spec fn rotated(path: Seq<char>) -> Seq<char> {
    if names_file(path) {
        unextended(path) + ASIDE@
    } else {
        path
    }
}

/// What to do next on the way to a line in the log.
pub open spec fn log_next(path: Seq<char>, max_bytes: u64, event: LogEvent, action: LogAction) -> bool {
    match event {
        LogEvent::Serialised(line, open) => match line {
            None => action is Finish,
            Some(l) => if open {
                action matches LogAction::Write(t) && t@ == l@ + "\n"@
            } else {
                action matches LogAction::Open(t) && t@ == l@ + "\n"@
            },
        },
        LogEvent::Opened(text, done) => if done {
            action matches LogAction::Write(t) && t@ == text@
        } else {
            action is Finish
        },
        LogEvent::Written(len) => match len {
            Some(n) => if n > max_bytes {
                action matches LogAction::Rotate(aside) && aside@ == rotated(path)
            } else {
                action is Finish
            },
            None => action is Finish,
        },
    }
}

impl Log {
    /// The log in the file `path`.
    pub fn new(path: String, max_bytes: u64) -> (r: Log)
        ensures
            r.path == path,
            r.max_bytes == max_bytes,
    {
        Log { path, max_bytes }
    }

    /// The name that the file is set aside under: `jsonl.1` stands for its
    /// extension.
    pub fn rotated_path(&self) -> (r: String)
        ensures
            r@ == rotated(self.path@),
    {
        match without_extension(self.path.as_str()) {
            Some(p) => concat2(p.as_str(), ASIDE),
            None => self.path.clone(),
        }
    }

    /// What to do next on the way to a line in the log.
    ///
    /// One older file is kept besides the one that is written.
    pub fn append(&self, event: LogEvent) -> (action: LogAction)
        ensures
            log_next(self.path@, self.max_bytes, event, action),
    {
        match event {
            LogEvent::Serialised(line, open) => match line {
                None => LogAction::Finish,
                Some(l) => {
                    let text = concat2(l.as_str(), "\n");
                    if open {
                        LogAction::Write(text)
                    } else {
                        LogAction::Open(text)
                    }
                },
            },
            LogEvent::Opened(text, done) => if done {
                LogAction::Write(text)
            } else {
                LogAction::Finish
            },
            LogEvent::Written(len) => match len {
                Some(n) => if n > self.max_bytes {
                    LogAction::Rotate(self.rotated_path())
                } else {
                    LogAction::Finish
                },
                None => LogAction::Finish,
            },
        }
    }
}

// ---------------------------------------------------------------------------
// Laws
// ---------------------------------------------------------------------------

/// The file is set aside only once a line was written to it that made it longer
/// than it may be, so the line goes with it and is not lost.
pub proof fn rotation_follows_the_line(
    path: Seq<char>,
    max_bytes: u64,
    event: LogEvent,
    action: LogAction,
)
    requires
        log_next(path, max_bytes, event, action),
        action is Rotate,
    ensures
        event matches LogEvent::Written(len) && len is Some && len->0 > max_bytes,
        action->Rotate_0@ == rotated(path),
{
}

/// A log file is never set aside under its own name.
pub proof fn rotation_renames(path: Seq<char>)
    requires
        names_file(path),
    ensures
        rotated(path) != path,
{
    reveal_strlit(".jsonl.1");
    let r = rotated(path);
    let name = last_part(path);
    tail_is_suffix(bare(path), '/');
    tail_is_suffix(name, '.');
    if r == path {
        assert(path.last() == '1');
        assert(bare(path) == path);
        assert(name =~= stem(name) + ASIDE@);
        let n = name.len() as int;
        assert(name[n - 1] == '1' && name[n - 2] == '.');
        assert(tail_after(name.drop_last(), '.') == Seq::<char>::empty());
        assert(tail_after(name, '.').len() == 1);
    }
}

/// An event that could be written as a line is appended as that line and a
/// newline, once the file is open; one that could not is dropped.
pub proof fn line_is_appended(
    log: &Log,
    line: String,
    open: LogAction,
    closed: LogAction,
    dropped: LogAction,
    was_open: bool,
)
    requires
        call_ensures(Log::append, (log, LogEvent::Serialised(Some(line), true)), open),
        call_ensures(Log::append, (log, LogEvent::Serialised(Some(line), false)), closed),
        call_ensures(Log::append, (log, LogEvent::Serialised(None, was_open)), dropped),
    ensures
        open matches LogAction::Write(t) && t@ == line@.push('\n'),
        closed matches LogAction::Open(t) && t@ == line@.push('\n'),
        dropped is Finish,
{
    reveal_strlit("\n");
    assert(line@ + "\n"@ =~= line@.push('\n'));
}

/// A file that could be opened is written to, and one that could not is left
/// alone; and one that was written to is set aside just where it has grown beyond
/// its limit.
pub proof fn file_is_written_then_measured(
    log: &Log,
    text: String,
    opened: LogAction,
    missing: LogAction,
    len: u64,
    measured: LogAction,
    unknown: LogAction,
    aside: String,
)
    requires
        call_ensures(Log::append, (log, LogEvent::Opened(text, true)), opened),
        call_ensures(Log::append, (log, LogEvent::Opened(text, false)), missing),
        call_ensures(Log::append, (log, LogEvent::Written(Some(len))), measured),
        call_ensures(Log::append, (log, LogEvent::Written(None)), unknown),
        call_ensures(Log::rotated_path, (log,), aside),
    ensures
        opened matches LogAction::Write(t) && t@ == text@,
        missing is Finish,
        unknown is Finish,
        len <= log.max_bytes ==> measured is Finish,
        len > log.max_bytes ==> (measured matches LogAction::Rotate(p) && p@ == aside@),
{
}

/// A log is kept as it was named and limited.
pub proof fn log_is_as_given(path: String, max_bytes: u64, log: Log)
    requires
        call_ensures(Log::new, (path, max_bytes), log),
    ensures
        log.path@ == path@,
        log.max_bytes == max_bytes,
{
}

/// A file with an extension is set aside in the same directory and under the same
/// name, with `jsonl.1` in place of the extension.
pub proof fn extension_is_replaced(
    log: &Log,
    dir: Seq<char>,
    name: Seq<char>,
    extension: Seq<char>,
    aside: String,
)
    requires
        call_ensures(Log::rotated_path, (log,), aside),
        dir.len() == 0 || dir.last() == '/',
        log.path@ == dir + name + seq!['.'] + extension,
        name.len() > 0,
        name != seq!['.'],
        forall|i: int| 0 <= i < name.len() ==> #[trigger] name[i] != '/',
        extension.len() > 0,
        forall|i: int|
            0 <= i < extension.len() ==> #[trigger] extension[i] != '/' && extension[i] != '.',
    ensures
        aside@ == dir + name + seq!['.', 'j', 's', 'o', 'n', 'l', '.', '1'],
{
    let path = log.path@;
    let file = name + seq!['.'] + extension;
    reveal_strlit(".jsonl.1");
    reveal_strlit(".");
    reveal_strlit("..");
    assert(path.last() == extension.last());
    assert(bare(path) == path);
    assert(path =~= dir + file);
    lemma_tail_is(dir, file, '/');
    assert(file =~= (name + seq!['.']) + extension);
    lemma_tail_is(name + seq!['.'], extension, '.');
    assert(stem(file) =~= name);
    assert(path.take(path.len() - file.len()) =~= dir);
    assert(file.last() == extension.last());
    assert(ASIDE@ =~= seq!['.', 'j', 's', 'o', 'n', 'l', '.', '1']);
    assert(aside@ =~= dir + name + seq!['.', 'j', 's', 'o', 'n', 'l', '.', '1']);
}

/// A file without an extension gets `jsonl.1` for one.
pub proof fn extension_is_added(log: &Log, dir: Seq<char>, name: Seq<char>, aside: String)
    requires
        call_ensures(Log::rotated_path, (log,), aside),
        dir.len() == 0 || dir.last() == '/',
        log.path@ == dir + name,
        name.len() > 0,
        forall|i: int| 0 <= i < name.len() ==> #[trigger] name[i] != '/' && name[i] != '.',
    ensures
        aside@ == dir + name + seq!['.', 'j', 's', 'o', 'n', 'l', '.', '1'],
{
    let path = log.path@;
    reveal_strlit(".jsonl.1");
    reveal_strlit(".");
    reveal_strlit("..");
    assert(path.last() == name[name.len() - 1]);
    assert(bare(path) == path);
    lemma_tail_is(dir, name, '/');
    lemma_tail_is(seq![], name, '.');
    assert(Seq::<char>::empty() + name =~= name);
    assert(stem(name) == name);
    assert(name[0] != '.');
    assert(path.take(path.len() - name.len()) =~= dir);
    assert(ASIDE@ =~= seq!['.', 'j', 's', 'o', 'n', 'l', '.', '1']);
    assert(aside@ =~= dir + name + seq!['.', 'j', 's', 'o', 'n', 'l', '.', '1']);
}

proof fn lemma_tail_is(front: Seq<char>, tail: Seq<char>, sep: char)
    requires
        front.len() == 0 || front.last() == sep,
        forall|i: int| 0 <= i < tail.len() ==> #[trigger] tail[i] != sep,
    ensures
        tail_after(front + tail, sep) == tail,
    decreases tail.len(),
{
    let s = front + tail;
    if tail.len() == 0 {
        assert(s =~= front);
    } else {
        lemma_tail_is(front, tail.drop_last(), sep);
        assert(s.drop_last() =~= front + tail.drop_last());
        assert(tail =~= tail.drop_last().push(tail.last()));
        assert(s.last() == tail[tail.len() - 1]);
    }
}

} // verus!
