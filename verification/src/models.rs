//! The data that the commands exchange: folders, repositories and their Git
//! state, editors, and what the navigation has selected.

use vstd::prelude::*;

verus! {

/// The characters of an optional string.
pub open spec fn opt_chars(o: Option<String>) -> Option<Seq<char>> {
    match o {
        Some(s) => Some(s@),
        None => None,
    }
}

/// A copy of an optional string.
pub fn clone_opt(o: &Option<String>) -> (r: Option<String>)
    ensures
        r == *o,
{
    match o {
        Some(s) => Some(s.clone()),
        None => None,
    }
}

/// A user-defined group of repositories.
pub struct Folder {
    pub id: String,
    pub name: String,
    pub icon: String,
    pub color: String,
}

/// A folder as a value: its fields' characters.
pub struct FolderView {
    pub id: Seq<char>,
    pub name: Seq<char>,
    pub icon: Seq<char>,
    pub color: Seq<char>,
}

impl View for Folder {
    type V = FolderView;

    open spec fn view(&self) -> FolderView {
        FolderView { id: self.id@, name: self.name@, icon: self.icon@, color: self.color@ }
    }
}

impl Clone for Folder {
    fn clone(&self) -> (r: Self)
        ensures
            r == *self,
    {
        Folder {
            id: self.id.clone(),
            name: self.name.clone(),
            icon: self.icon.clone(),
            color: self.color.clone(),
        }
    }
}

/// A language's share of a repository's source, in percent.
pub struct Language {
    pub name: String,
    pub pct: u8,
    pub color: String,
}

impl Clone for Language {
    fn clone(&self) -> (r: Self)
        ensures
            r == *self,
    {
        Language { name: self.name.clone(), pct: self.pct, color: self.color.clone() }
    }
}

/// A changed file of the working tree and how it changed
/// (`"staged"`, `"modified"` or `"untracked"`).
pub struct StatusFile {
    pub path: String,
    pub kind: String,
}

impl Clone for StatusFile {
    fn clone(&self) -> (r: Self)
        ensures
            r == *self,
    {
        StatusFile { path: self.path.clone(), kind: self.kind.clone() }
    }
}

/// Counts of changed files and the position relative to the remote branch.
pub struct WorkingTreeStatus {
    pub clean: bool,
    pub staged: u32,
    pub modified: u32,
    pub untracked: u32,
    pub ahead: u32,
    pub behind: u32,
    pub files: Vec<StatusFile>,
}

/// A tracked repository with its live Git state.
pub struct RepoSummary {
    pub id: String,
    pub name: String,
    pub folder_id: String,
    pub path: String,
    pub description: String,
    pub remote: String,
    pub remote_host: String,
    pub default_branch: String,
    pub branch: String,
    pub favorite: bool,
    pub last_fetched: Option<String>,
    pub last_commit_at: Option<String>,
    pub languages: Vec<Language>,
    pub status: WorkingTreeStatus,
}

/// A local branch.
pub struct Branch {
    pub name: String,
    pub current: bool,
    pub ahead: u32,
    pub behind: u32,
    pub last_msg: String,
    pub when: Option<String>,
}

/// A commit with its diff statistics.
pub struct Commit {
    pub hash: String,
    pub msg: String,
    pub author: String,
    pub date: Option<String>,
    pub additions: u32,
    pub deletions: u32,
}

impl Clone for Commit {
    fn clone(&self) -> (r: Self)
        ensures
            r == *self,
    {
        Commit {
            hash: self.hash.clone(),
            msg: self.msg.clone(),
            author: self.author.clone(),
            date: clone_opt(&self.date),
            additions: self.additions,
            deletions: self.deletions,
        }
    }
}

/// Someone who authored commits, with totals over those commits.
pub struct Contributor {
    pub name: String,
    pub handle: String,
    pub commits: u32,
    pub additions: u32,
    pub deletions: u32,
    pub last_active: Option<String>,
}

impl Clone for Contributor {
    fn clone(&self) -> (r: Self)
        ensures
            r == *self,
    {
        Contributor {
            name: self.name.clone(),
            handle: self.handle.clone(),
            commits: self.commits,
            additions: self.additions,
            deletions: self.deletions,
            last_active: clone_opt(&self.last_active),
        }
    }
}

/// A repository's summary with its branches, commits, contributors and README.
pub struct RepoDetail {
    pub summary: RepoSummary,
    pub branches: Vec<Branch>,
    pub commits: Vec<Commit>,
    pub contributors: Vec<Contributor>,
    pub readme: String,
}

/// An editor or tool that can open a repository.
pub struct Editor {
    pub id: String,
    pub name: String,
    pub detected: bool,
    pub path: String,
    pub accent: String,
    pub mark: String,
    pub cmd: String,
}

/// An editor as a value: its fields' characters.
pub struct EditorView {
    pub id: Seq<char>,
    pub name: Seq<char>,
    pub detected: bool,
    pub path: Seq<char>,
    pub accent: Seq<char>,
    pub mark: Seq<char>,
    pub cmd: Seq<char>,
}

impl View for Editor {
    type V = EditorView;

    open spec fn view(&self) -> EditorView {
        EditorView {
            id: self.id@,
            name: self.name@,
            detected: self.detected,
            path: self.path@,
            accent: self.accent@,
            mark: self.mark@,
            cmd: self.cmd@,
        }
    }
}

impl Clone for Editor {
    fn clone(&self) -> (r: Self)
        ensures
            r == *self,
    {
        Editor {
            id: self.id.clone(),
            name: self.name.clone(),
            detected: self.detected,
            path: self.path.clone(),
            accent: self.accent.clone(),
            mark: self.mark.clone(),
            cmd: self.cmd.clone(),
        }
    }
}

/// The outcome of a Git action, with a message for the user.
pub struct SyncResult {
    pub success: bool,
    pub message: String,
}

/// A commit shown in the activity feed, with the repository it belongs to.
pub struct ActivityItem {
    pub repo_id: String,
    pub repo_name: String,
    pub hash: String,
    pub msg: String,
    pub author: String,
    pub date: Option<String>,
    pub additions: u32,
    pub deletions: u32,
}

impl Clone for ActivityItem {
    fn clone(&self) -> (r: Self)
        ensures
            r == *self,
    {
        ActivityItem {
            repo_id: self.repo_id.clone(),
            repo_name: self.repo_name.clone(),
            hash: self.hash.clone(),
            msg: self.msg.clone(),
            author: self.author.clone(),
            date: clone_opt(&self.date),
            additions: self.additions,
            deletions: self.deletions,
        }
    }
}

} // verus!
