//! The three tables as files: where they lie, what they held when this
//! process last read or wrote them, and the handle through which a locked
//! table is changed.
//!
//! Nothing here touches a disk. The caller takes the lock, reads the table
//! and hands its text over; it writes the text that the handle holds when
//! the work is done, and releases the lock. The module `lock` says which
//! steps taking a lock consists of.
pub mod changes;
pub mod lock;
pub mod oplog;

use vstd::prelude::*;

use crate::error::{ErrorView, UserLibError};
use crate::text::{chars_of, lemma_strip_padded, lemma_trim_twice, push_all, same_chars, string_of};
use crate::text::{trim, trim_chars, Padding};

pub use crate::userlib::files::changes::{Difference, DifferenceView};

verus! {

/// What a table held when this process last read or wrote it, without the
/// white space at its two ends.
#[derive(Debug, Clone)]
pub struct OldContent(String);

impl View for OldContent {
    type V = Seq<char>;

    closed spec fn view(&self) -> Seq<char> {
        self.0@
    }
}

impl OldContent {
    /// Records `content`.
    #[must_use]
    pub fn new(content: String) -> (r: Self)
        ensures
            r@ == content@,
    {
        Self(content)
    }

    /// What was recorded.
    pub fn get(&self) -> (r: &str)
        ensures
            r@ == self@,
    {
        self.0.as_str()
    }
}

/// The path of a table together with what the table last held.
#[derive(Debug, Clone)]
pub struct ChangeTrackingPath {
    old_content: OldContent,
    path: Option<String>,
}

/// The path of a table, with what the table last held, as a mathematical
/// value.
pub struct PathView {
    pub old_content: Seq<char>,
    pub path: Option<Seq<char>>,
}

impl View for ChangeTrackingPath {
    type V = PathView;

    closed spec fn view(&self) -> PathView {
        PathView {
            old_content: self.old_content@,
            path: match self.path {
                Some(p) => Some(p@),
                None => None,
            },
        }
    }
}

impl ChangeTrackingPath {
    /// Tracks the table at `path`, which holds `content` now.
    pub fn new(path: &str, content: &str) -> (r: Self)
        ensures
            r@ == (PathView { old_content: trim(content@), path: Some(path@) }),
    {
        let chars = chars_of(content);
        let trimmed = trim_chars(&chars);
        Self { old_content: OldContent::new(string_of(&trimmed)), path: Some(path.to_owned()) }
    }

    /// A copy of the path and of what the table last held.
    pub fn duplicate(&self) -> (r: Self)
        ensures
            r@ == self@,
    {
        Self {
            old_content: OldContent::new(self.old_content.get().to_owned()),
            path: match &self.path {
                Some(p) => Some(p.clone()),
                None => None,
            },
        }
    }

    /// The path of the table, where it has a file behind it.
    pub fn get_path(&self) -> (r: Option<&str>)
        ensures
            match self@.path {
                Some(p) => r is Some && r->Some_0@ == p,
                None => r is None,
            },
    {
        match &self.path {
            Some(p) => Some(p.as_str()),
            None => None,
        }
    }

    /// What the table last held.
    pub fn get_old_content(&self) -> (r: &str)
        ensures
            r@ == self@.old_content,
    {
        self.old_content.get()
    }
}

/// The text of the three tables.
#[derive(Debug, Clone, PartialEq, Eq)]
pub struct FileContents {
    pub pwd: String,
    pub shd: String,
    pub grp: String,
}

/// The text of the three tables as a mathematical value.
pub struct ContentsView {
    pub pwd: Seq<char>,
    pub shd: Seq<char>,
    pub grp: Seq<char>,
}

impl View for FileContents {
    type V = ContentsView;

    open spec fn view(&self) -> ContentsView {
        ContentsView { pwd: self.pwd@, shd: self.shd@, grp: self.grp@ }
    }
}

/// The three tables of the identity database.
#[derive(Debug, Clone)]
pub struct Files {
    passwd: ChangeTrackingPath,
    shadow: ChangeTrackingPath,
    group: ChangeTrackingPath,
}

/// The three tables as a mathematical value.
pub struct FilesView {
    pub passwd: PathView,
    pub shadow: PathView,
    pub group: PathView,
}

impl View for Files {
    type V = FilesView;

    closed spec fn view(&self) -> FilesView {
        FilesView { passwd: self.passwd@, shadow: self.shadow@, group: self.group@ }
    }
}

impl FilesView {
    /// Whether one of the tables has no file behind it.
    pub open spec fn is_virtual(self) -> bool {
        self.passwd.path is None || self.shadow.path is None || self.group.path is None
    }

    /// Whether each of the tables holds, but for white space at its ends,
    /// what it held when it was last read or written.
    pub open spec fn unchanged(self, current: ContentsView) -> bool {
        &&& !is_dirty(self.passwd.old_content, current.pwd)
        &&& !is_dirty(self.shadow.old_content, current.shd)
        &&& !is_dirty(self.group.old_content, current.grp)
    }
}

/// Whether a table that held `recorded` has changed, now that it holds
/// `current`. White space at the two ends does not count.
pub open spec fn is_dirty(recorded: Seq<char>, current: Seq<char>) -> bool {
    trim(recorded) != trim(current)
}

/// The name of the lock file of the table at `path`.
pub open spec fn lock_name(path: Seq<char>) -> Seq<char> {
    path + ".lock"@
}

/// The handle on a locked table: the only way to change what it holds.
#[derive(Debug)]
pub struct LockedFileGuard {
    lockfile: String,
    path: ChangeTrackingPath,
    content: String,
}

/// A handle as a mathematical value: the lock file, the path of the table
/// with what the table last held, and what the table holds now.
pub struct GuardView {
    pub lockfile: Seq<char>,
    pub path: PathView,
    pub content: Seq<char>,
}

impl View for LockedFileGuard {
    type V = GuardView;

    closed spec fn view(&self) -> GuardView {
        GuardView { lockfile: self.lockfile@, path: self.path@, content: self.content@ }
    }
}

/// `content` with a newline at its end, unless it is empty or has one.
pub open spec fn ended(content: Seq<char>) -> Seq<char> {
    if content.len() == 0 || content.last() == '\n' {
        content
    } else {
        content.push('\n')
    }
}

/// `content` with `line` as one more line after it.
pub open spec fn appended(content: Seq<char>, line: Seq<char>) -> Seq<char> {
    (ended(content) + line).push('\n')
}

impl GuardView {
    /// The handle once `new_content` and a newline stand in the place of
    /// what the table held, and `new_content` is recorded as what it last
    /// held.
    pub open spec fn replaced(self, new_content: Seq<char>) -> GuardView {
        GuardView {
            content: new_content.push('\n'),
            path: PathView { old_content: trim(new_content), ..self.path },
            ..self
        }
    }

    /// The handle once `line` stands after what the table held, as one
    /// more line.
    pub open spec fn appended(self, line: Seq<char>) -> GuardView {
        GuardView { content: appended(self.content, line), ..self }
    }
}

/// The handle on the table behind `table`, which holds `current`.
pub open spec fn guard_of(table: PathView, current: Seq<char>) -> GuardView {
    GuardView { lockfile: lock_name(table.path->Some_0), path: table, content: current }
}

/// The outcome of taking the handle on one table.
pub open spec fn guarded(table: PathView, current: Seq<char>) -> Result<GuardView, ErrorView> {
    if table.path is None {
        Err(ErrorView::FilesRequired)
    } else if is_dirty(table.old_content, current) {
        Err(ErrorView::FilesChanged)
    } else {
        Ok(guard_of(table, current))
    }
}

/// A table that has changed is not handed out; one that has not is handed
/// out, and again once the handle is given back without a change.
pub proof fn lemma_handle_needs_unchanged_table(table: PathView, current: Seq<char>)
    requires
        table.path is Some,
    ensures
        is_dirty(table.old_content, current) ==> guarded(table, current) == Err::<
            GuardView,
            ErrorView,
        >(ErrorView::FilesChanged),
        !is_dirty(table.old_content, current) ==> guarded(table, current) is Ok && guarded(
            guarded(table, current)->Ok_0.path,
            current,
        ) == guarded(table, current),
{
}

/// A table is handed out while it holds what it was recorded with: the
/// text that it held when its path was recorded, and the text that a handle
/// has put in the place of what it held.
pub proof fn lemma_recorded_table_is_handed_out(
    path: Seq<char>,
    content: Seq<char>,
    guard: GuardView,
    new_content: Seq<char>,
)
    requires
        guard.path.path is Some,
    ensures
        guarded(PathView { old_content: trim(content), path: Some(path) }, content) is Ok,
        guarded(guard.replaced(new_content).path, guard.replaced(new_content).content) is Ok,
{
    lemma_trim_twice(content);
    lemma_trim_twice(new_content);
    lemma_strip_padded(new_content, Padding::WhiteSpace, '\n');
}

/// The outcome of taking a handle, as a mathematical value.
pub open spec fn guard_result(r: Result<LockedFileGuard, UserLibError>) -> Result<
    GuardView,
    ErrorView,
> {
    match r {
        Ok(g) => Ok(g@),
        Err(e) => Err(e@),
    }
}

/// Takes the handle on the table behind `table`, which holds `current`.
fn lock_guarded(table: &ChangeTrackingPath, current: String) -> (r: Result<
    LockedFileGuard,
    UserLibError,
>)
    ensures
        guard_result(r) == guarded(table@, current@),
{
    let path = match &table.path {
        Some(p) => p,
        None => {
            return Err(UserLibError::FilesRequired);
        },
    };
    match Files::check_if_dirty(table.old_content.get(), current.as_str()) {
        Ok(()) => {},
        Err(e) => {
            return Err(e);
        },
    }
    let mut lockfile = chars_of(path.as_str());
    let ending = chars_of(".lock");
    push_all(&mut lockfile, &ending);
    Ok(
        LockedFileGuard {
            lockfile: string_of(&lockfile),
            path: ChangeTrackingPath {
                old_content: OldContent::new(table.old_content.get().to_owned()),
                path: Some(path.clone()),
            },
            content: current,
        },
    )
}

impl Files {
    /// The tables at the usual places of a Linux system, which hold
    /// `contents` now.
    pub fn default(contents: &FileContents) -> (r: Self)
        ensures
            r@ == (FilesView {
                passwd: PathView { old_content: trim(contents.pwd@), path: Some("/etc/passwd"@) },
                shadow: PathView { old_content: trim(contents.shd@), path: Some("/etc/shadow"@) },
                group: PathView { old_content: trim(contents.grp@), path: Some("/etc/group"@) },
            }),
    {
        Self::new("/etc/passwd", "/etc/shadow", "/etc/group", contents)
    }

    /// The tables at the given paths, which hold `contents` now.
    pub fn new(passwd_path: &str, shadow_path: &str, group_path: &str, contents: &FileContents) -> (r:
        Self)
        ensures
            r@ == (FilesView {
                passwd: PathView { old_content: trim(contents.pwd@), path: Some(passwd_path@) },
                shadow: PathView { old_content: trim(contents.shd@), path: Some(shadow_path@) },
                group: PathView { old_content: trim(contents.grp@), path: Some(group_path@) },
            }),
    {
        Self {
            passwd: ChangeTrackingPath::new(passwd_path, contents.pwd.as_str()),
            shadow: ChangeTrackingPath::new(shadow_path, contents.shd.as_str()),
            group: ChangeTrackingPath::new(group_path, contents.grp.as_str()),
        }
    }

    /// A copy of the three tables.
    pub fn duplicate(&self) -> (r: Self)
        ensures
            r@ == self@,
    {
        Self {
            passwd: self.passwd.duplicate(),
            shadow: self.shadow.duplicate(),
            group: self.group.duplicate(),
        }
    }

    /// Whether one of the tables has no file behind it. Some operations
    /// need all three.
    #[must_use]
    pub fn is_virtual(&self) -> (r: bool)
        ensures
            r == self@.is_virtual(),
    {
        !(self.group.path.is_some() && self.passwd.path.is_some() && self.shadow.path.is_some())
    }

    /// The user table.
    pub fn get_passwd(&self) -> (r: &ChangeTrackingPath)
        ensures
            r@ == self@.passwd,
    {
        &self.passwd
    }

    /// The shadow table.
    pub fn get_shadow(&self) -> (r: &ChangeTrackingPath)
        ensures
            r@ == self@.shadow,
    {
        &self.shadow
    }

    /// The group table.
    pub fn get_group(&self) -> (r: &ChangeTrackingPath)
        ensures
            r@ == self@.group,
    {
        &self.group
    }

    /// Takes the handles on all three tables, which hold `current` now.
    /// Fails with `FilesRequired` where a table has no file behind it, and
    /// with `FilesChanged` where one of them has changed.
    pub fn lock_all_get(&self, current: FileContents) -> (r: Result<
        (LockedFileGuard, LockedFileGuard, LockedFileGuard),
        UserLibError,
    >)
        ensures
            match r {
                Ok(g) => {
                    &&& !self@.is_virtual()
                    &&& self@.unchanged(current@)
                    &&& g.0@ == guard_of(self@.passwd, current.pwd@)
                    &&& g.1@ == guard_of(self@.shadow, current.shd@)
                    &&& g.2@ == guard_of(self@.group, current.grp@)
                },
                Err(e) => if self@.is_virtual() {
                    e@ == ErrorView::FilesRequired
                } else {
                    e@ == ErrorView::FilesChanged && !self@.unchanged(current@)
                },
            },
    {
        if self.passwd.path.is_some() && self.shadow.path.is_some() && self.group.path.is_some() {
            let pwd = match self.lock_guarded_passwd(current.pwd) {
                Ok(g) => g,
                Err(e) => {
                    return Err(e);
                },
            };
            let shd = match self.lock_guarded_shadow(current.shd) {
                Ok(g) => g,
                Err(e) => {
                    return Err(e);
                },
            };
            let grp = match self.lock_guarded_group(current.grp) {
                Ok(g) => g,
                Err(e) => {
                    return Err(e);
                },
            };
            Ok((pwd, shd, grp))
        } else {
            Err(UserLibError::FilesRequired)
        }
    }

    /// Takes the handle on the user table, which holds `current` now.
    pub fn lock_guarded_passwd(&self, current: String) -> (r: Result<LockedFileGuard, UserLibError>)
        ensures
            guard_result(r) == guarded(self@.passwd, current@),
    {
        lock_guarded(&self.passwd, current)
    }

    /// Takes the handle on the shadow table, which holds `current` now.
    pub fn lock_guarded_shadow(&self, current: String) -> (r: Result<LockedFileGuard, UserLibError>)
        ensures
            guard_result(r) == guarded(self@.shadow, current@),
    {
        lock_guarded(&self.shadow, current)
    }

    /// Takes the handle on the group table, which holds `current` now.
    pub fn lock_guarded_group(&self, current: String) -> (r: Result<LockedFileGuard, UserLibError>)
        ensures
            guard_result(r) == guarded(self@.group, current@),
    {
        lock_guarded(&self.group, current)
    }

    /// Whether a table that held `recorded` still holds it, now that it
    /// holds `current`: `FilesChanged` if it does not.
    pub fn check_if_dirty(recorded: &str, current: &str) -> (r: Result<(), UserLibError>)
        ensures
            r is Ok <==> !is_dirty(recorded@, current@),
            r matches Err(e) ==> e@ == ErrorView::FilesChanged,
    {
        let a = chars_of(recorded);
        let b = chars_of(current);
        let x = trim_chars(&a);
        let y = trim_chars(&b);
        if same_chars(&x, &y) {
            Ok(())
        } else {
            Err(UserLibError::FilesChanged)
        }
    }

    /// Gives the three handles back, and says what the tables hold once
    /// the handles' work is written. Each table is from then on known to
    /// have last held what its handle recorded.
    pub fn release(&mut self, pwd: LockedFileGuard, shd: LockedFileGuard, grp: LockedFileGuard) -> (r:
        FileContents)
        ensures
            final(self)@ == (FilesView { passwd: pwd@.path, shadow: shd@.path, group: grp@.path }),
            r@ == (ContentsView { pwd: pwd@.content, shd: shd@.content, grp: grp@.content }),
    {
        self.passwd = pwd.path;
        self.shadow = shd.path;
        self.group = grp.path;
        FileContents { pwd: pwd.content, shd: shd.content, grp: grp.content }
    }
}

impl LockedFileGuard {
    /// What the table holds.
    pub fn get_content(&self) -> (r: &str)
        ensures
            r@ == self@.content,
    {
        self.content.as_str()
    }

    /// The path of the lock file.
    pub fn get_lockfile(&self) -> (r: &str)
        ensures
            r@ == self@.lockfile,
    {
        self.lockfile.as_str()
    }

    /// The path of the table, with what the table last held.
    pub fn get_path(&self) -> (r: &ChangeTrackingPath)
        ensures
            r@ == self@.path,
    {
        &self.path
    }

    /// The parts in which what the table holds differs from what it last
    /// held, line by line, and whether there is exactly one such part.
    pub fn print_difference(&self) -> (r: (Vec<Difference>, bool))
        ensures
            crate::userlib::files::changes::difference_views(r.0@)
                == crate::userlib::files::changes::changed(
                crate::userlib::files::changes::changeset_diffs(
                    self@.path.old_content,
                    self@.content,
                    "\n"@,
                ),
            ),
            r.1 == (r.0@.len() == 1),
    {
        let diffs = crate::userlib::files::changes::changeset(
            self.path.get_old_content(),
            self.content.as_str(),
            "\n",
        );
        let filtered = crate::userlib::files::changes::changed_parts(diffs);
        let one = filtered.len() == 1;
        (filtered, one)
    }

    /// Puts `new_content` and a newline in the place of what the table
    /// holds, and records `new_content` as what the table last held.
    pub fn replace_contents(&mut self, new_content: &str)
        ensures
            final(self)@ == old(self)@.replaced(new_content@),
    {
        let mut chars = chars_of(new_content);
        let trimmed = trim_chars(&chars);
        chars.push('\n');
        self.content = string_of(&chars);
        self.path.old_content = OldContent::new(string_of(&trimmed));
    }

    /// Adds `appendee` as one more line: after a newline where the table
    /// does not end in one, and with a newline after it. What the table
    /// last held stays as it was recorded.
    pub fn append(&mut self, appendee: String)
        ensures
            final(self)@ == old(self)@.appended(appendee@),
    {
        let mut chars = chars_of(self.content.as_str());
        let n = chars.len();
        if n > 0 && chars[n - 1] != '\n' {
            chars.push('\n');
        }
        let line = chars_of(appendee.as_str());
        push_all(&mut chars, &line);
        chars.push('\n');
        self.content = string_of(&chars);
    }
}

} // verus!
