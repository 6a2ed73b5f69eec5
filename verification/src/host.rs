//! Where the scripts of the system come from: a directory of files, kept up
//! to date from a repository.

use crate::chat::texts_of;
use crate::package::{root_text, PackageReference};
use crate::text::str_eq;
use vstd::prelude::*;
use vstd::string::*;

verus! {

/// A checkout of a repository of scripts, and the branch to follow.
#[derive(Debug, Clone, PartialEq, Eq)]
pub struct Repo {
    pub root: String,
    pub remote_name: String,
    pub branch_name: String,
}

/// The mathematical content of a `Repo`.
pub struct RepoView {
    pub root: Seq<char>,
    pub remote_name: Seq<char>,
    pub branch_name: Seq<char>,
}

impl View for Repo {
    type V = RepoView;

    open spec fn view(&self) -> RepoView {
        RepoView {
            root: self.root@,
            remote_name: self.remote_name@,
            branch_name: self.branch_name@,
        }
    }
}

/// What is said of a commit: its id, and its summary in brackets.
pub open spec fn commit_description(id: Seq<char>, summary: Seq<char>) -> Seq<char> {
    id + " ("@ + summary + ")"@
}

/// What is said once the branch was compared with the commit that it follows.
pub open spec fn pull_report(upstream: Seq<char>, summary: Seq<char>, local: Seq<char>) -> Seq<
    char,
> {
    if upstream == local {
        "Already at "@ + commit_description(upstream, summary)
    } else {
        "Updated to "@ + commit_description(upstream, summary)
    }
}

impl Repo {
    /// The checkout at `root` that follows `branch_name` of `remote_name`.
    pub fn new(root: &str, remote_name: String, branch_name: String) -> (r: Repo)
        ensures
            r@ == (RepoView { root: root@, remote_name: remote_name@, branch_name: branch_name@ }),
    {
        Repo { root: String::from_str(root), remote_name, branch_name }
    }

    /// A copy with the same content.
    pub fn duplicate(&self) -> (r: Repo)
        ensures
            r@ == self@,
    {
        Repo {
            root: self.root.clone(),
            remote_name: self.remote_name.clone(),
            branch_name: self.branch_name.clone(),
        }
    }

    /// Compares the commit that the branch follows, given by its id and its
    /// summary, with the commit at which the branch stands: whether the
    /// branch has to be moved, and what to say of it.
    pub fn pull_outcome(upstream: &str, summary: &str, local: &str) -> (r: (bool, String))
        ensures
            r.0 == (upstream@ != local@),
            r.1@ == pull_report(upstream@, summary@, local@),
    {
        let same = str_eq(upstream, local);
        let mut report = if same {
            String::from_str("Already at ")
        } else {
            String::from_str("Updated to ")
        };
        report.append(upstream);
        report.append(" (");
        report.append(summary);
        report.append(")");
        assert(report@ =~= pull_report(upstream@, summary@, local@));
        (!same, report)
    }
}

/// Why a file of the system's scripts is not read.
#[derive(Debug, PartialEq, Eq, Clone, Copy, Structural)]
pub enum HostError {
    /// The package is not one of those that come with the system.
    NotSystemPackage,
    /// The file is not under the root of the system's scripts.
    OutsideRoot,
}

/// What to do to bring the scripts up to date.
#[derive(Debug, Clone, PartialEq, Eq)]
pub enum Fetch {
    /// Nothing: no repository is followed. This is what to say of it.
    NotUpdating(String),
    /// Pull from this repository.
    Pull(Repo),
}

/// The directory of the system's scripts. A path is held as the names that
/// lead from the top of the file system to it, in order.
#[derive(Debug, Clone, PartialEq, Eq)]
pub struct LuaHost {
    root: Vec<String>,
    repo: Option<Repo>,
}

/// The mathematical content of a `LuaHost`.
pub struct HostView {
    pub root: Seq<Seq<char>>,
    pub repo: Option<RepoView>,
}

impl View for LuaHost {
    type V = HostView;

    closed spec fn view(&self) -> HostView {
        HostView {
            root: texts_of(self.root@),
            repo: match self.repo {
                Some(r) => Some(r@),
                None => None,
            },
        }
    }
}

/// Whether the path `path` is `root` itself or leads through it.
pub open spec fn is_under(root: Seq<Seq<char>>, path: Seq<Seq<char>>) -> bool {
    root.len() <= path.len() && path.take(root.len() as int) == root
}

/// The name of the file that holds the system package `name`.
pub open spec fn system_file_name(name: Seq<char>) -> Seq<char> {
    name + ".lua"@
}

impl LuaHost {
    /// The host of the scripts under `root`, a path without links or steps
    /// back, which follows `repo` where one is given.
    pub fn new(root: Vec<String>, repo: Option<Repo>) -> (r: LuaHost)
        ensures
            r@ == (HostView {
                root: texts_of(root@),
                repo: match repo {
                    Some(x) => Some(x@),
                    None => None,
                },
            }),
    {
        LuaHost { root, repo }
    }

    /// The name of the file under the root that holds a system package, or
    /// why the package has no such file.
    pub fn filesystem_package_file(reference: &PackageReference) -> (r: Result<String, HostError>)
        ensures
            match r {
                Ok(name) => root_text(reference@) == "system"@ && name@ == system_file_name(
                    reference@.package,
                ),
                Err(e) => root_text(reference@) != "system"@ && e == HostError::NotSystemPackage,
            },
    {
        if !reference.is_system_package() {
            return Err(HostError::NotSystemPackage);
        }
        let mut filename = String::from_str(reference.package());
        filename.append(".lua");
        Ok(filename)
    }

    /// Decides whether a file may be read: `resolved` is the path that the
    /// file's name leads to once links and steps back are followed, and it has
    /// to lie under the root.
    pub fn check_resolved(&self, resolved: &Vec<String>) -> (r: Result<(), HostError>)
        ensures
            r == if is_under(self@.root, texts_of(resolved@)) {
                Ok::<(), HostError>(())
            } else {
                Err::<(), HostError>(HostError::OutsideRoot)
            },
    {
        let ghost root = texts_of(self.root@);
        let ghost path = texts_of(resolved@);
        if self.root.len() > resolved.len() {
            return Err(HostError::OutsideRoot);
        }
        let mut i: usize = 0;
        while i < self.root.len()
            invariant
                i <= self.root.len() <= resolved.len(),
                root == texts_of(self.root@),
                path == texts_of(resolved@),
                root == self@.root,
                forall|j: int| 0 <= j < i ==> root[j] == path[j],
            decreases self.root.len() - i,
        {
            if !str_eq(self.root[i].as_str(), resolved[i].as_str()) {
                assert(path.take(root.len() as int)[i as int] != root[i as int]);
                return Err(HostError::OutsideRoot);
            }
            i += 1;
        }
        assert(path.take(root.len() as int) =~= root);
        Ok(())
    }

    /// What to do to bring the scripts up to date.
    pub fn fetch(&self) -> (r: Fetch)
        ensures
            match r {
                Fetch::NotUpdating(said) => self@.repo is None && said@
                    == "Not updating from git."@,
                Fetch::Pull(repo) => self@.repo == Some(repo@),
            },
    {
        match &self.repo {
            Some(repo) => Fetch::Pull(repo.duplicate()),
            None => Fetch::NotUpdating(String::from_str("Not updating from git.")),
        }
    }
}

/// What is said of a file that is not read.
pub open spec fn host_error_text(e: HostError) -> Seq<char> {
    match e {
        HostError::NotSystemPackage => "Package is not a system package"@,
        HostError::OutsideRoot => "Can't require outside of root"@,
    }
}

impl HostError {
    /// What is said of the error.
    pub fn to_string(&self) -> (r: String)
        ensures
            r@ == host_error_text(*self),
    {
        match self {
            HostError::NotSystemPackage => String::from_str("Package is not a system package"),
            HostError::OutsideRoot => String::from_str("Can't require outside of root"),
        }
    }
}

} // verus!
