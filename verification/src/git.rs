//! The snapshot of a repository's status that a format is printed from,
//! and how it is filled from what a repository tells.

use vstd::prelude::*;
use vstd::string::StringExecFns;

verus! {

/// The status of a repository: counts of files by state, counts of
/// commits and stashes, and the names of the branch and of its upstream.
#[derive(Debug, PartialEq, Eq, Clone)]
pub struct Stats {
    /// Files that are new to the repository and not tracked.
    pub untracked: u16,
    /// Files staged to be added.
    pub added_staged: u16,
    /// Modified files that are not staged.
    pub modified: u16,
    /// Modified files that are staged.
    pub modified_staged: u16,
    /// Renamed files.
    pub renamed: u16,
    /// Deleted files that are not staged.
    pub deleted: u16,
    /// Deleted files that are staged.
    pub deleted_staged: u16,
    /// Commits ahead of the upstream branch.
    pub ahead: u16,
    /// Commits behind the upstream branch.
    pub behind: u16,
    /// Unresolved conflicts.
    pub conflicts: u16,
    /// Stashes.
    pub stashes: u16,
    /// The branch, or what else the head points to.
    pub branch: String,
    /// The upstream branch.
    pub remote: String,
}

/// The states a file can be in, as far as they are counted.
#[derive(Debug, PartialEq, Eq, Clone, Copy, Structural)]
pub struct FileStatus {
    pub untracked: bool,
    pub added_staged: bool,
    pub modified: bool,
    pub modified_staged: bool,
    pub renamed: bool,
    pub deleted: bool,
    pub deleted_staged: bool,
    pub conflicted: bool,
}

/// What a repository tells of its head.
#[derive(Debug, PartialEq, Eq, Clone)]
pub enum Head {
    /// The head has a short name, and the id of the commit it leads to, if
    /// it leads to one.
    Named { shorthand: String, commit: Option<Vec<u8>> },
    /// The head has no name that is text.
    Unnamed,
    /// There is no head, for the repository is bare.
    Bare,
    /// There is no head, for the repository is empty.
    Unborn,
    /// There is no head, for another reason.
    Missing,
}

/// The hexadecimal digit for `d`, below sixteen.
pub open spec fn hex_digit(d: int) -> char {
    if d < 10 {
        (d + 48) as u8 as char
    } else {
        (d + 87) as u8 as char
    }
}

/// A byte in hexadecimal, without a leading zero.
pub open spec fn hex(b: u8) -> Seq<char> {
    if b < 16 {
        seq![hex_digit(b as int)]
    } else {
        seq![hex_digit(b as int / 16), hex_digit(b as int % 16)]
    }
}

/// The first `n` bytes of `id` in hexadecimal.
pub open spec fn hex_run(id: Seq<u8>, n: int) -> Seq<char>
    decreases n,
{
    if n <= 0 {
        Seq::empty()
    } else {
        hex_run(id, n - 1) + hex(id[n - 1])
    }
}

/// The short form of the id of a commit: its first four bytes in
/// hexadecimal, or all of them if there are fewer.
pub open spec fn short_id(id: Seq<u8>) -> Seq<char> {
    hex_run(
        id,
        if id.len() < 4 {
            id.len() as int
        } else {
            4
        },
    )
}

/// Whether the head stands on a branch: it has a name other than `HEAD`.
pub open spec fn on_branch(head: Head) -> bool {
    head matches Head::Named { shorthand, .. } && shorthand@ != "HEAD"@
}

/// The name that a snapshot gives the branch: the short name of the head;
/// for a head that is detached, the short id of its commit; `master`
/// where there is no head yet; and `HEAD` where nothing better is known.
pub open spec fn branch_name(head: Head) -> Seq<char> {
    match head {
        Head::Named { shorthand, commit } => if shorthand@ != "HEAD"@ {
            shorthand@
        } else {
            match commit {
                Some(id) => short_id(id@),
                None => "HEAD"@,
            }
        },
        Head::Unnamed => "HEAD"@,
        Head::Bare => "master"@,
        Head::Unborn => "master"@,
        Head::Missing => "HEAD"@,
    }
}

/// Appends a hexadecimal digit to `out`.
fn push_hex_digit(out: &mut String, d: u8)
    requires
        d < 16,
    ensures
        final(out)@ == old(out)@.push(hex_digit(d as int)),
{
    if d < 10 {
        out.push((d + 48) as char);
    } else {
        out.push((d + 87) as char);
    }
}

/// The short form of the id of a commit.
pub fn short_id_of(id: &Vec<u8>) -> (s: String)
    ensures
        s@ == short_id(id@),
{
    let n: usize = if id.len() < 4 {
        id.len()
    } else {
        4
    };
    let mut s = String::new();
    let mut i: usize = 0;
    assert(s@ =~= hex_run(id@, 0));
    while i < n
        invariant
            i <= n <= id.len(),
            s@ == hex_run(id@, i as int),
        decreases n - i,
    {
        let b = id[i];
        let ghost before = s@;
        if b >= 16 {
            push_hex_digit(&mut s, b / 16);
            push_hex_digit(&mut s, b % 16);
        } else {
            push_hex_digit(&mut s, b);
        }
        assert(s@ =~= before + hex(b));
        i += 1;
    }
    s
}

/// `n`, and one more if `flag` is set.
pub open spec fn bumped(n: u16, flag: bool) -> int {
    if flag {
        n + 1
    } else {
        n as int
    }
}

/// `n`, and one more if `flag` is set.
fn bump(n: u16, flag: bool) -> (r: u16)
    requires
        bumped(n, flag) <= u16::MAX,
    ensures
        r == bumped(n, flag),
{
    if flag {
        n + 1
    } else {
        n
    }
}

impl Stats {
    /// Whether nothing is counted and nothing is named.
    pub open spec fn is_empty(self) -> bool {
        &&& self.untracked == 0
        &&& self.added_staged == 0
        &&& self.modified == 0
        &&& self.modified_staged == 0
        &&& self.renamed == 0
        &&& self.deleted == 0
        &&& self.deleted_staged == 0
        &&& self.ahead == 0
        &&& self.behind == 0
        &&& self.conflicts == 0
        &&& self.stashes == 0
        &&& self.branch@.len() == 0
        &&& self.remote@.len() == 0
    }

    /// Whether one more file in each state of `status` can be counted.
    pub open spec fn has_room(self, status: FileStatus) -> bool {
        &&& bumped(self.untracked, status.untracked) <= u16::MAX
        &&& bumped(self.added_staged, status.added_staged) <= u16::MAX
        &&& bumped(self.modified, status.modified) <= u16::MAX
        &&& bumped(self.modified_staged, status.modified_staged) <= u16::MAX
        &&& bumped(self.renamed, status.renamed) <= u16::MAX
        &&& bumped(self.deleted, status.deleted) <= u16::MAX
        &&& bumped(self.deleted_staged, status.deleted_staged) <= u16::MAX
        &&& bumped(self.conflicts, status.conflicted) <= u16::MAX
    }

    /// Whether the counts of `rhs` can be added to the counts of `self`.
    pub open spec fn can_add(self, rhs: Stats) -> bool {
        &&& self.untracked + rhs.untracked <= u16::MAX
        &&& self.added_staged + rhs.added_staged <= u16::MAX
        &&& self.modified + rhs.modified <= u16::MAX
        &&& self.modified_staged + rhs.modified_staged <= u16::MAX
        &&& self.renamed + rhs.renamed <= u16::MAX
        &&& self.deleted + rhs.deleted <= u16::MAX
        &&& self.deleted_staged + rhs.deleted_staged <= u16::MAX
        &&& self.ahead + rhs.ahead <= u16::MAX
        &&& self.behind + rhs.behind <= u16::MAX
        &&& self.conflicts + rhs.conflicts <= u16::MAX
        &&& self.stashes + rhs.stashes <= u16::MAX
    }

    /// Names the branch after the head. Returns whether the head stands on
    /// a branch, which is when the branch may have an upstream.
    pub fn read_branch(&mut self, head: &Head) -> (named: bool)
        ensures
            final(self).branch@ == branch_name(*head),
            named == on_branch(*head),
            final(self).same_counts(*old(self)),
            final(self).remote == old(self).remote,
    {
        match head {
            Head::Named { shorthand, commit } => {
                let detached = String::from_str("HEAD");
                if *shorthand != detached {
                    self.branch = shorthand.clone();
                    return true;
                }
                self.branch = match commit {
                    Some(id) => short_id_of(id),
                    None => String::from_str("HEAD"),
                };
            },
            Head::Bare => {
                self.branch = String::from_str("master");
            },
            Head::Unborn => {
                self.branch = String::from_str("master");
            },
            _ => {
                self.branch = String::from_str("HEAD");
            },
        }
        false
    }

    /// Takes the counts of commits ahead of and behind the upstream, as
    /// far as they fit in sixteen bits.
    pub fn read_ahead_behind(&mut self, ahead: usize, behind: usize)
        ensures
            final(self).ahead == ahead % 0x10000,
            final(self).behind == behind % 0x10000,
            final(self).untracked == old(self).untracked,
            final(self).added_staged == old(self).added_staged,
            final(self).modified == old(self).modified,
            final(self).modified_staged == old(self).modified_staged,
            final(self).renamed == old(self).renamed,
            final(self).deleted == old(self).deleted,
            final(self).deleted_staged == old(self).deleted_staged,
            final(self).conflicts == old(self).conflicts,
            final(self).stashes == old(self).stashes,
            final(self).branch == old(self).branch,
            final(self).remote == old(self).remote,
    {
        self.ahead = (ahead % 0x10000) as u16;
        self.behind = (behind % 0x10000) as u16;
    }

    /// Whether the counts of `self` are those of `other`.
    pub open spec fn same_counts(self, other: Stats) -> bool {
        &&& self.untracked == other.untracked
        &&& self.added_staged == other.added_staged
        &&& self.modified == other.modified
        &&& self.modified_staged == other.modified_staged
        &&& self.renamed == other.renamed
        &&& self.deleted == other.deleted
        &&& self.deleted_staged == other.deleted_staged
        &&& self.ahead == other.ahead
        &&& self.behind == other.behind
        &&& self.conflicts == other.conflicts
        &&& self.stashes == other.stashes
    }

    /// Whether one more file in each state of `status` can be counted.
    pub fn can_record(&self, status: FileStatus) -> (b: bool)
        ensures
            b == self.has_room(status),
    {
        (!status.untracked || self.untracked < u16::MAX) && (!status.added_staged
            || self.added_staged < u16::MAX) && (!status.modified || self.modified < u16::MAX)
            && (!status.modified_staged || self.modified_staged < u16::MAX) && (!status.renamed
            || self.renamed < u16::MAX) && (!status.deleted || self.deleted < u16::MAX) && (
        !status.deleted_staged || self.deleted_staged < u16::MAX) && (!status.conflicted
            || self.conflicts < u16::MAX)
    }

    /// Whether one more stash can be counted.
    pub fn can_record_stash(&self) -> (b: bool)
        ensures
            b == (self.stashes < u16::MAX),
    {
        self.stashes < u16::MAX
    }

    /// Counts one stash.
    pub fn record_stash(&mut self)
        requires
            old(self).stashes < u16::MAX,
        ensures
            final(self).stashes == old(self).stashes + 1,
            final(self).untracked == old(self).untracked,
            final(self).added_staged == old(self).added_staged,
            final(self).modified == old(self).modified,
            final(self).modified_staged == old(self).modified_staged,
            final(self).renamed == old(self).renamed,
            final(self).deleted == old(self).deleted,
            final(self).deleted_staged == old(self).deleted_staged,
            final(self).ahead == old(self).ahead,
            final(self).behind == old(self).behind,
            final(self).conflicts == old(self).conflicts,
            final(self).branch == old(self).branch,
            final(self).remote == old(self).remote,
    {
        self.stashes = self.stashes + 1;
    }

    /// Counts one file: each state that the file is in goes up by one.
    pub fn record(&mut self, status: FileStatus)
        requires
            old(self).has_room(status),
        ensures
            final(self).untracked == bumped(old(self).untracked, status.untracked),
            final(self).added_staged == bumped(old(self).added_staged, status.added_staged),
            final(self).modified == bumped(old(self).modified, status.modified),
            final(self).modified_staged == bumped(
                old(self).modified_staged,
                status.modified_staged,
            ),
            final(self).renamed == bumped(old(self).renamed, status.renamed),
            final(self).deleted == bumped(old(self).deleted, status.deleted),
            final(self).deleted_staged == bumped(old(self).deleted_staged, status.deleted_staged),
            final(self).conflicts == bumped(old(self).conflicts, status.conflicted),
            final(self).ahead == old(self).ahead,
            final(self).behind == old(self).behind,
            final(self).stashes == old(self).stashes,
            final(self).branch == old(self).branch,
            final(self).remote == old(self).remote,
    {
        self.untracked = bump(self.untracked, status.untracked);
        self.added_staged = bump(self.added_staged, status.added_staged);
        self.modified = bump(self.modified, status.modified);
        self.modified_staged = bump(self.modified_staged, status.modified_staged);
        self.renamed = bump(self.renamed, status.renamed);
        self.deleted = bump(self.deleted, status.deleted);
        self.deleted_staged = bump(self.deleted_staged, status.deleted_staged);
        self.conflicts = bump(self.conflicts, status.conflicted);
    }

    /// Adds the counts of `rhs` to the counts of `self`; the names stay.
    pub fn add_assign(&mut self, rhs: Stats)
        requires
            old(self).can_add(rhs),
        ensures
            final(self).untracked == old(self).untracked + rhs.untracked,
            final(self).added_staged == old(self).added_staged + rhs.added_staged,
            final(self).modified == old(self).modified + rhs.modified,
            final(self).modified_staged == old(self).modified_staged + rhs.modified_staged,
            final(self).renamed == old(self).renamed + rhs.renamed,
            final(self).deleted == old(self).deleted + rhs.deleted,
            final(self).deleted_staged == old(self).deleted_staged + rhs.deleted_staged,
            final(self).ahead == old(self).ahead + rhs.ahead,
            final(self).behind == old(self).behind + rhs.behind,
            final(self).conflicts == old(self).conflicts + rhs.conflicts,
            final(self).stashes == old(self).stashes + rhs.stashes,
            final(self).branch == old(self).branch,
            final(self).remote == old(self).remote,
    {
        self.untracked = self.untracked + rhs.untracked;
        self.added_staged = self.added_staged + rhs.added_staged;
        self.modified = self.modified + rhs.modified;
        self.modified_staged = self.modified_staged + rhs.modified_staged;
        self.renamed = self.renamed + rhs.renamed;
        self.deleted = self.deleted + rhs.deleted;
        self.deleted_staged = self.deleted_staged + rhs.deleted_staged;
        self.ahead = self.ahead + rhs.ahead;
        self.behind = self.behind + rhs.behind;
        self.conflicts = self.conflicts + rhs.conflicts;
        self.stashes = self.stashes + rhs.stashes;
    }
}

impl Default for Stats {
    fn default() -> (s: Stats)
        ensures
            s.is_empty(),
    {
        Stats {
            untracked: 0,
            added_staged: 0,
            modified: 0,
            modified_staged: 0,
            renamed: 0,
            deleted: 0,
            deleted_staged: 0,
            ahead: 0,
            behind: 0,
            conflicts: 0,
            stashes: 0,
            branch: String::new(),
            remote: String::new(),
        }
    }
}

/// Whether every bit of `flag` is set in `val`.
pub fn check(val: u32, flag: u32) -> (b: bool)
    ensures
        b == (val & flag == flag),
{
    val & flag == flag
}

} // verus!
