//! Taking the lock on a table, step by step.
//!
//! A table at path `P` is locked the way the account tools of the system
//! lock it: the process writes its number into a file `P.<pid>` of its own,
//! then makes a hard link `P.lock` to that file. The link can be made only
//! where no `P.lock` exists, whichever process tries, so the process that
//! makes it holds the lock. The file `P.<pid>` is removed once the link was
//! tried, whatever came of it. The lock is released by removing `P.lock`.
//!
//! The steps on the disk are the caller's. A `LockAttempt` says which step
//! comes next, is told what came of it, and ends with the table's text or
//! with an error.
use vstd::prelude::*;

use crate::error::{ErrorView, UserLibError};
use crate::number::{decimal, decimal_chars, is_digit, lemma_decimal_value, parse_u32, u32_of};
use crate::text::{chars_of, Padding, push_all, string_of, strip, strip_chars, trim, trim_chars};
use crate::userlib::files::lock_name;

verus! {

/// The name of the file that process `pid` writes its number into before
/// it tries to lock the table at `path`.
pub open spec fn temp_name(path: Seq<char>, pid: u32) -> Seq<char> {
    path.push('.') + decimal(pid as nat)
}

/// What came of the attempt to make the hard link.
#[derive(Debug, PartialEq, Eq, Structural, Clone, Copy)]
pub enum Link {
    /// The link was made: this process holds the lock.
    Made,
    /// A lock file exists already.
    Contended,
    /// The link could not be made for another cause.
    Refused,
}

/// How far an attempt to lock a table has come.
#[derive(Debug, PartialEq, Eq, Structural, Clone, Copy)]
pub enum Stage {
    /// The file `P.<pid>` is being written.
    Writing,
    /// The hard link is being made.
    Linking,
    /// The file `P.<pid>` is being removed, after the link was tried.
    Clearing(Link),
    /// The lock is held, and the table is being read.
    Opening,
    /// The lock file of another process is being read.
    Probing,
    /// The lock is being given up, because the table could not be read.
    Aborting,
    /// The attempt is over: the lock is held.
    Held,
    /// The attempt is over: the lock is not held.
    Failed,
}

/// What the caller reports of the step that it was asked to take.
#[derive(Debug)]
pub enum LockEvent {
    /// The step was taken.
    Done,
    /// The hard link was not made, because the lock file exists.
    AlreadyExists,
    /// The step failed.
    Failed,
    /// The file was read, and this is what it holds.
    Read(String),
}

/// An event as a mathematical value.
pub enum EventView {
    Done,
    AlreadyExists,
    Failed,
    Read(Seq<char>),
}

impl View for LockEvent {
    type V = EventView;

    open spec fn view(&self) -> EventView {
        match self {
            LockEvent::Done => EventView::Done,
            LockEvent::AlreadyExists => EventView::AlreadyExists,
            LockEvent::Failed => EventView::Failed,
            LockEvent::Read(s) => EventView::Read(s@),
        }
    }
}

/// The step that the caller is asked to take next, or how the attempt
/// ended.
#[derive(Debug)]
pub enum LockAction {
    /// Create the file at `path` and write `text` into it.
    WritePid { path: String, text: String },
    /// Make a hard link at `to` to the file at `from`.
    HardLink { from: String, to: String },
    /// Remove the file at `path`.
    Remove { path: String },
    /// Open the table at `path` for reading and writing, and read it.
    ReadTable { path: String },
    /// Read the lock file at `path`.
    ReadLock { path: String },
    /// The table is locked. It holds `content`; the lock is released by
    /// removing `lockfile`.
    Locked { lockfile: String, content: String },
    /// The table is not locked.
    Fail(UserLibError),
}

/// An action as a mathematical value.
pub enum ActionView {
    WritePid { path: Seq<char>, text: Seq<char> },
    HardLink { from: Seq<char>, to: Seq<char> },
    Remove { path: Seq<char> },
    ReadTable { path: Seq<char> },
    ReadLock { path: Seq<char> },
    Locked { lockfile: Seq<char>, content: Seq<char> },
    Fail(ErrorView),
}

impl View for LockAction {
    type V = ActionView;

    open spec fn view(&self) -> ActionView {
        match self {
            LockAction::WritePid { path, text } => ActionView::WritePid { path: path@, text: text@ },
            LockAction::HardLink { from, to } => ActionView::HardLink { from: from@, to: to@ },
            LockAction::Remove { path } => ActionView::Remove { path: path@ },
            LockAction::ReadTable { path } => ActionView::ReadTable { path: path@ },
            LockAction::ReadLock { path } => ActionView::ReadLock { path: path@ },
            LockAction::Locked { lockfile, content } => ActionView::Locked {
                lockfile: lockfile@,
                content: content@,
            },
            LockAction::Fail(e) => ActionView::Fail(e@),
        }
    }
}

/// An attempt of process `pid` to lock the table at `path`.
#[derive(Debug)]
pub struct LockAttempt {
    path: String,
    pid: u32,
    stage: Stage,
}

/// An attempt as a mathematical value.
pub struct AttemptView {
    pub path: Seq<char>,
    pub pid: u32,
    pub stage: Stage,
}

impl View for LockAttempt {
    type V = AttemptView;

    closed spec fn view(&self) -> AttemptView {
        AttemptView { path: self.path@, pid: self.pid, stage: self.stage }
    }
}

/// The number of the process that a lock file names: what the file holds,
/// without white space and then without characters of number 0 at its two
/// ends, read as a number.
pub open spec fn owner_of(content: Seq<char>) -> Option<u32> {
    u32_of(strip(trim(content), Padding::Nul))
}

/// The end of an attempt without the lock, in words.
pub open spec fn fail(text: Seq<char>) -> ActionView {
    ActionView::Fail(ErrorView::Message(text))
}

impl AttemptView {
    /// The path of the file `P.<pid>`.
    pub open spec fn temp(self) -> Seq<char> {
        temp_name(self.path, self.pid)
    }

    /// The path of the lock file `P.lock`.
    pub open spec fn lock(self) -> Seq<char> {
        lock_name(self.path)
    }

    /// The attempt at another stage.
    pub open spec fn at(self, stage: Stage) -> AttemptView {
        AttemptView { stage, ..self }
    }

    /// The first step: write the number of the process into `P.<pid>`.
    pub open spec fn first(self) -> ActionView {
        ActionView::WritePid { path: self.temp(), text: decimal(self.pid as nat) }
    }

    /// The stage that follows, and the step to take next, when the caller
    /// reports `event` of the step that it was asked to take.
    pub open spec fn next(self, event: EventView) -> (AttemptView, ActionView) {
        match self.stage {
            Stage::Writing => match event {
                EventView::Done => (
                    self.at(Stage::Linking),
                    ActionView::HardLink { from: self.temp(), to: self.lock() },
                ),
                _ => (self.at(Stage::Clearing(Link::Refused)), ActionView::Remove { path: self.temp() }),
            },
            Stage::Linking => (
                self.at(
                    Stage::Clearing(
                        match event {
                            EventView::Done => Link::Made,
                            EventView::AlreadyExists => Link::Contended,
                            _ => Link::Refused,
                        },
                    ),
                ),
                ActionView::Remove { path: self.temp() },
            ),
            Stage::Clearing(Link::Made) => match event {
                EventView::Done => (self.at(Stage::Opening), ActionView::ReadTable { path: self.path }),
                _ => (self.at(Stage::Aborting), ActionView::Remove { path: self.lock() }),
            },
            Stage::Clearing(Link::Contended) => (
                self.at(Stage::Probing),
                ActionView::ReadLock { path: self.lock() },
            ),
            Stage::Clearing(Link::Refused) => (self.at(Stage::Failed), fail("was not able to lock!"@)),
            Stage::Opening => match event {
                EventView::Read(content) => (
                    self.at(Stage::Held),
                    ActionView::Locked { lockfile: self.lock(), content },
                ),
                _ => (self.at(Stage::Aborting), ActionView::Remove { path: self.lock() }),
            },
            Stage::Probing => (
                self.at(Stage::Failed),
                match event {
                    EventView::Read(content) => if owner_of(content) is Some {
                        ActionView::Fail(ErrorView::AlreadyLocked)
                    } else {
                        fail("was not able to lock!"@)
                    },
                    _ => fail("was not able to lock!"@),
                },
            ),
            Stage::Aborting => (self.at(Stage::Failed), fail("Failed to open the file"@)),
            Stage::Held => (self, fail("The attempt to lock is over"@)),
            Stage::Failed => (self, fail("The attempt to lock is over"@)),
        }
    }

    /// Whether the file `P.<pid>` may exist and its removal was not asked
    /// for yet.
    pub open spec fn temp_may_exist(self) -> bool {
        self.stage == Stage::Writing || self.stage == Stage::Linking
    }

    /// Whether this process has made the lock file and not yet been asked
    /// to remove it.
    pub open spec fn holds_lock(self) -> bool {
        self.stage == Stage::Clearing(Link::Made) || self.stage == Stage::Opening || self.stage
            == Stage::Held
    }

    /// Whether the attempt is over.
    pub open spec fn is_over(self) -> bool {
        self.stage == Stage::Held || self.stage == Stage::Failed
    }
}

/// Once the hard link was tried, the next step is to remove the file
/// `P.<pid>`, whatever came of the link. The same step follows where the
/// file could not be written. No attempt ends before that step was asked
/// for.
pub proof fn lemma_temp_is_removed(attempt: AttemptView, event: EventView)
    ensures
        attempt.stage == Stage::Linking ==> attempt.next(event).1 == (ActionView::Remove {
            path: attempt.temp(),
        }),
        attempt.temp_may_exist() && !attempt.next(event).0.temp_may_exist() ==> attempt.next(
            event,
        ).1 == (ActionView::Remove { path: attempt.temp() }),
        attempt.temp_may_exist() ==> !attempt.next(event).0.is_over(),
{
}

/// The lock is held only through a hard link that this process has made:
/// an attempt that finds a lock file in place never goes on to the table.
pub proof fn lemma_lock_needs_link(attempt: AttemptView, event: EventView)
    ensures
        attempt.next(event).0.holds_lock() ==> attempt.holds_lock() || (attempt.stage
            == Stage::Linking && event == EventView::Done),
        attempt.next(event).1 is Locked ==> attempt.stage == Stage::Opening && attempt.next(
            event,
        ).0.stage == Stage::Held,
        attempt.next(event).1 is ReadTable ==> attempt.holds_lock(),
{
}

/// Where this process has made the lock file and the attempt fails all the
/// same, the step before the failure is to remove the lock file.
pub proof fn lemma_lock_is_given_up(attempt: AttemptView, event: EventView)
    ensures
        attempt.holds_lock() && !attempt.is_over() && !attempt.next(event).0.holds_lock()
            ==> attempt.next(event).1 == (ActionView::Remove { path: attempt.lock() }),
{
}

impl LockAttempt {
    /// Begins an attempt of process `pid` to lock the table at `path`, and
    /// says which step to take first.
    pub fn try_to_lock_file(path: &str, pid: u32) -> (r: (LockAttempt, LockAction))
        ensures
            r.0@ == (AttemptView { path: path@, pid, stage: Stage::Writing }),
            r.1@ == r.0@.first(),
    {
        let attempt = LockAttempt { path: path.to_owned(), pid, stage: Stage::Writing };
        let action = LockAction::WritePid {
            path: attempt.temp_path(),
            text: string_of(&decimal_chars(pid as u64)),
        };
        (attempt, action)
    }

    /// The path of the file `P.<pid>`.
    pub fn temp_path(&self) -> (r: String)
        ensures
            r@ == self@.temp(),
    {
        let mut chars = chars_of(self.path.as_str());
        chars.push('.');
        let digits = decimal_chars(self.pid as u64);
        push_all(&mut chars, &digits);
        string_of(&chars)
    }

    /// The path of the lock file `P.lock`.
    pub fn lock_path(&self) -> (r: String)
        ensures
            r@ == self@.lock(),
    {
        let mut chars = chars_of(self.path.as_str());
        let ending = chars_of(".lock");
        push_all(&mut chars, &ending);
        string_of(&chars)
    }

    /// Whether the attempt is over.
    pub fn is_over(&self) -> (r: bool)
        ensures
            r == self@.is_over(),
    {
        self.stage == Stage::Held || self.stage == Stage::Failed
    }

    /// Takes note of what came of the step that was asked for, and says
    /// which step to take next or how the attempt ended.
    pub fn step(&mut self, event: LockEvent) -> (action: LockAction)
        ensures
            (final(self)@, action@) == old(self)@.next(event@),
    {
        match self.stage {
            Stage::Writing => match event {
                LockEvent::Done => {
                    self.stage = Stage::Linking;
                    LockAction::HardLink { from: self.temp_path(), to: self.lock_path() }
                },
                _ => {
                    self.stage = Stage::Clearing(Link::Refused);
                    LockAction::Remove { path: self.temp_path() }
                },
            },
            Stage::Linking => {
                let link = match event {
                    LockEvent::Done => Link::Made,
                    LockEvent::AlreadyExists => Link::Contended,
                    _ => Link::Refused,
                };
                self.stage = Stage::Clearing(link);
                LockAction::Remove { path: self.temp_path() }
            },
            Stage::Clearing(Link::Made) => match event {
                LockEvent::Done => {
                    self.stage = Stage::Opening;
                    LockAction::ReadTable { path: self.path.clone() }
                },
                _ => {
                    self.stage = Stage::Aborting;
                    LockAction::Remove { path: self.lock_path() }
                },
            },
            Stage::Clearing(Link::Contended) => {
                self.stage = Stage::Probing;
                LockAction::ReadLock { path: self.lock_path() }
            },
            Stage::Clearing(Link::Refused) => {
                self.stage = Stage::Failed;
                LockAction::Fail(UserLibError::message("was not able to lock!"))
            },
            Stage::Opening => match event {
                LockEvent::Read(content) => {
                    self.stage = Stage::Held;
                    LockAction::Locked { lockfile: self.lock_path(), content }
                },
                _ => {
                    self.stage = Stage::Aborting;
                    LockAction::Remove { path: self.lock_path() }
                },
            },
            Stage::Probing => {
                self.stage = Stage::Failed;
                match event {
                    LockEvent::Read(content) => {
                        if lock_owner(content.as_str()).is_some() {
                            LockAction::Fail(UserLibError::AlreadyLocked)
                        } else {
                            LockAction::Fail(UserLibError::message("was not able to lock!"))
                        }
                    },
                    _ => LockAction::Fail(UserLibError::message("was not able to lock!")),
                }
            },
            Stage::Aborting => {
                self.stage = Stage::Failed;
                LockAction::Fail(UserLibError::message("Failed to open the file"))
            },
            Stage::Held => LockAction::Fail(UserLibError::message("The attempt to lock is over")),
            Stage::Failed => LockAction::Fail(UserLibError::message("The attempt to lock is over")),
        }
    }
}

/// The number of the process that a lock file names, if it names one.
pub fn lock_owner(content: &str) -> (r: Option<u32>)
    ensures
        r == owner_of(content@),
{
    let chars = chars_of(content);
    let trimmed = trim_chars(&chars);
    let bare = strip_chars(&trimmed, Padding::Nul);
    parse_u32(&bare)
}

/// The files of a disk that does what it is asked: paths with what the
/// files hold.
///
/// This is the disk against which the steps of an attempt are stated to
/// work. On it a file can be written at any path, a hard link is made
/// exactly where its target does not exist while its source does, and a
/// file is removed or read exactly where it exists.
pub struct Disk {
    pub files: Map<Seq<char>, Seq<char>>,
}

impl Disk {
    /// Whether a file exists at `path`.
    pub open spec fn has(self, path: Seq<char>) -> bool {
        self.files.dom().contains(path)
    }

    /// The disk with a file at `path` that holds `content`.
    pub open spec fn with(self, path: Seq<char>, content: Seq<char>) -> Disk {
        Disk { files: self.files.insert(path, content) }
    }

    /// The disk without a file at `path`.
    pub open spec fn without(self, path: Seq<char>) -> Disk {
        Disk { files: self.files.remove(path) }
    }

    /// What the disk is after a step, and what the caller reports of it.
    pub open spec fn answer(self, action: ActionView) -> (Disk, EventView) {
        match action {
            ActionView::WritePid { path, text } => (self.with(path, text), EventView::Done),
            ActionView::HardLink { from, to } => if self.has(to) {
                (self, EventView::AlreadyExists)
            } else if self.has(from) {
                (self.with(to, self.files[from]), EventView::Done)
            } else {
                (self, EventView::Failed)
            },
            ActionView::Remove { path } => if self.has(path) {
                (self.without(path), EventView::Done)
            } else {
                (self, EventView::Failed)
            },
            ActionView::ReadTable { path } => if self.has(path) {
                (self, EventView::Read(self.files[path]))
            } else {
                (self, EventView::Failed)
            },
            ActionView::ReadLock { path } => if self.has(path) {
                (self, EventView::Read(self.files[path]))
            } else {
                (self, EventView::Failed)
            },
            ActionView::Locked { .. } => (self, EventView::Done),
            ActionView::Fail(_) => (self, EventView::Done),
        }
    }
}

/// How an attempt ends on a disk, and what the disk is then, where the
/// attempt is over within `steps` steps.
pub open spec fn run(attempt: AttemptView, action: ActionView, disk: Disk, steps: nat) -> (
    ActionView,
    Disk,
)
    decreases steps,
{
    if steps == 0 || action is Locked || action is Fail {
        (action, disk)
    } else {
        let answer = disk.answer(action);
        let next = attempt.next(answer.1);
        run(next.0, next.1, answer.0, (steps - 1) as nat)
    }
}

/// How the attempt of process `pid` to lock the table at `path` ends on a
/// disk, and what the disk is then. No attempt takes more than five steps.
pub open spec fn acquired(disk: Disk, path: Seq<char>, pid: u32) -> (ActionView, Disk) {
    let attempt = AttemptView { path, pid, stage: Stage::Writing };
    run(attempt, attempt.first(), disk, 6)
}

/// The three files of an attempt have different paths.
pub proof fn lemma_different_paths(path: Seq<char>, pid: u32)
    ensures
        temp_name(path, pid) != path,
        lock_name(path) != path,
        temp_name(path, pid) != lock_name(path),
{
    reveal_strlit(".lock");
    lemma_decimal_value(pid as nat);
    let temp = temp_name(path, pid);
    let lock = lock_name(path);
    assert(temp.len() > path.len());
    assert(lock.len() > path.len());
    let at = path.len() as int + 1;
    assert(temp[at] == decimal(pid as nat)[0]);
    assert(is_digit(decimal(pid as nat)[0]));
    assert(lock[at] == ".lock"@[1]);
    assert(".lock"@[1] == 'l');
}

/// A table that is not locked is locked by the attempt: on a disk that
/// has the table and not its lock file, the attempt ends with the lock
/// and the table's text. The disk then has the lock file, which names the
/// process, and not the file `P.<pid>`; nothing else has changed.
pub proof fn lemma_free_table_is_locked(disk: Disk, path: Seq<char>, pid: u32)
    requires
        disk.has(path),
        !disk.has(lock_name(path)),
    ensures
        acquired(disk, path, pid).0 == (ActionView::Locked {
            lockfile: lock_name(path),
            content: disk.files[path],
        }),
        acquired(disk, path, pid).1.files == disk.without(temp_name(path, pid)).with(
            lock_name(path),
            decimal(pid as nat),
        ).files,
{
    lemma_different_paths(path, pid);
    reveal_with_fuel(run, 6);
    let temp = temp_name(path, pid);
    let lock = lock_name(path);
    let text = decimal(pid as nat);
    let last = disk.with(temp, text).with(lock, text).without(temp);
    assert(last.files =~= disk.without(temp).with(lock, text).files);
}

/// A table can be locked again once its lock was released: on a disk
/// that has the table and not its lock file, an attempt ends with the
/// lock; when the lock file is removed then, a second attempt of the same
/// process ends with the lock as well.
pub proof fn lemma_lock_twice(disk: Disk, path: Seq<char>, pid: u32)
    requires
        disk.has(path),
        !disk.has(lock_name(path)),
    ensures
        acquired(disk, path, pid).0 is Locked,
        acquired(acquired(disk, path, pid).1.without(lock_name(path)), path, pid).0 == acquired(
            disk,
            path,
            pid,
        ).0,
{
    lemma_different_paths(path, pid);
    lemma_free_table_is_locked(disk, path, pid);
    let between = acquired(disk, path, pid).1.without(lock_name(path));
    assert(between.has(path));
    assert(!between.has(lock_name(path)));
    assert(between.files[path] == disk.files[path]);
    lemma_free_table_is_locked(between, path, pid);
}

/// A table that is locked stays locked: on a disk that has the lock file
/// of the table, the attempt ends without the lock, and the disk is then
/// as it was, but for the file `P.<pid>`, which it does not have.
pub proof fn lemma_locked_table_is_respected(disk: Disk, path: Seq<char>, pid: u32)
    requires
        disk.has(lock_name(path)),
    ensures
        acquired(disk, path, pid).0 is Fail,
        acquired(disk, path, pid).1.files == disk.without(temp_name(path, pid)).files,
{
    lemma_different_paths(path, pid);
    reveal_with_fuel(run, 6);
    let temp = temp_name(path, pid);
    assert(disk.with(temp, decimal(pid as nat)).without(temp).files =~= disk.without(temp).files);
}

} // verus!
