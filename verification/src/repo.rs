//! Telling a linked worktree from an ordinary repository.
//!
//! A VM shares the host's `.git` through a writable mount, so that commits made inside it reach
//! the host directly. What is found here decides about mounts, records and the removal of
//! worktrees.
use vstd::prelude::*;

use crate::path;
use crate::text;

verus! {

#[derive(Clone, Copy, PartialEq, Eq, Structural, Debug)]
pub enum RepoKind {
    Worktree,
    Normal,
}

pub struct RepoInfo {
    pub kind: RepoKind,
    /// The real `.git` on the host, under the same path inside the VM.
    pub host_git: String,
    /// The root of the repository; of the main repository for a worktree.
    pub host_repo: String,
    pub branch: String,
}

pub struct RepoView {
    pub kind: RepoKind,
    pub host_git: Seq<char>,
    pub host_repo: Seq<char>,
    pub branch: Seq<char>,
}

impl View for RepoInfo {
    type V = RepoView;

    open spec fn view(&self) -> RepoView {
        RepoView {
            kind: self.kind,
            host_git: self.host_git@,
            host_repo: self.host_repo@,
            branch: self.branch@,
        }
    }
}

/// What stands at `.git` in a directory.
pub enum DotGit {
    Missing,
    Directory,
    /// A file, with its contents.
    File(String),
}

pub enum DotGitView {
    Missing,
    Directory,
    File(Seq<char>),
}

impl View for DotGit {
    type V = DotGitView;

    open spec fn view(&self) -> DotGitView {
        match self {
            DotGit::Missing => DotGitView::Missing,
            DotGit::Directory => DotGitView::Directory,
            DotGit::File(s) => DotGitView::File(s@),
        }
    }
}

#[derive(Clone, Copy, PartialEq, Eq, Structural, Debug)]
pub enum RepoFault {
    /// The `.git` file holds no pointer.
    Unrecognized,
    /// The pointer has no directory two levels above it.
    BadPointer,
}

pub open spec fn fault_text(f: RepoFault, workdir: Seq<char>) -> Seq<char> {
    match f {
        RepoFault::Unrecognized => "unrecognized .git file in "@ + workdir,
        RepoFault::BadPointer => "bad gitdir pointer"@,
    }
}

impl RepoFault {
    pub fn message(&self, workdir: &str) -> (r: String)
        ensures
            r@ == fault_text(*self, workdir@),
    {
        match self {
            RepoFault::Unrecognized => "unrecognized .git file in ".to_owned().concat(workdir),
            RepoFault::BadPointer => "bad gitdir pointer".to_owned(),
        }
    }
}

/// The git directory that a `.git` file points to.
pub open spec fn pointer(workdir: Seq<char>, content: Seq<char>) -> Option<Seq<char>> {
    match text::without_prefix(text::stripped(content), "gitdir: "@) {
        Some(gd) => Some(path::below(workdir, gd)),
        None => None,
    }
}

/// The git directory of a working directory.
pub open spec fn git_dir(workdir: Seq<char>, dot: DotGitView) -> Option<Seq<char>> {
    match dot {
        DotGitView::Missing => None,
        DotGitView::Directory => Some(path::below(workdir, ".git"@)),
        DotGitView::File(content) => pointer(workdir, content),
    }
}

/// The branch that a `HEAD` file names; empty if it could not be read.
pub open spec fn branch_of(head: Option<Seq<char>>) -> Seq<char> {
    match head {
        Some(s) => text::without_prefixes(text::stripped(s), "ref: refs/heads/"@),
        None => Seq::empty(),
    }
}

/// The directory two levels above a worktree's git directory: `.git` above `.git/worktrees/x`.
pub open spec fn common_dir(gd: Seq<char>) -> Option<Seq<char>> {
    match path::parent_of(gd) {
        Some(p) => path::parent_of(p),
        None => None,
    }
}

pub open spec fn parent_or_root(p: Seq<char>) -> Seq<char> {
    match path::parent_of(p) {
        Some(q) => q,
        None => "/"@,
    }
}

/// What a directory is; `None` if it is no repository.
pub open spec fn inspection(
    workdir: Seq<char>,
    dot: DotGitView,
    head: Option<Seq<char>>,
) -> Result<Option<RepoView>, RepoFault> {
    match dot {
        DotGitView::Missing => Ok(None),
        DotGitView::Directory => Ok(
            Some(
                RepoView {
                    kind: RepoKind::Normal,
                    host_git: path::below(workdir, ".git"@),
                    host_repo: workdir,
                    branch: branch_of(head),
                },
            ),
        ),
        DotGitView::File(content) => match pointer(workdir, content) {
            None => Err(RepoFault::Unrecognized),
            Some(gd) => match common_dir(gd) {
                None => Err(RepoFault::BadPointer),
                Some(git) => Ok(
                    Some(
                        RepoView {
                            kind: RepoKind::Worktree,
                            host_git: git,
                            host_repo: parent_or_root(git),
                            branch: branch_of(head),
                        },
                    ),
                ),
            },
        },
    }
}

fn head_branch(head: Option<&str>) -> (r: String)
    ensures
        r@ == branch_of(crate::util::opt_view(head)),
{
    match head {
        Some(s) => text::trim_prefixes(text::trim(s), "ref: refs/heads/").to_owned(),
        None => text::empty(),
    }
}

/// A `.git` file that points into the worktrees of a repository makes its directory a linked
/// worktree of that repository, whose own `.git` is the one to be shared.
pub proof fn lemma_worktree_belongs_to_its_repository(
    workdir: Seq<char>,
    main: Seq<char>,
    entry: Seq<char>,
    head: Option<Seq<char>>,
)
    requires
        path::absolute(main),
        path::tidy(main),
        !text::is_space(entry.last()),
        path::entry_name(entry),
    ensures
        inspection(
            workdir,
            DotGitView::File("gitdir: "@ + main + "/.git/worktrees/"@ + entry + "\n"@),
            head,
        ) matches Ok(Some(r)) && r.kind == RepoKind::Worktree && r.host_repo == main && r.host_git
            == main + "/.git"@,
        git_dir(
            workdir,
            DotGitView::File("gitdir: "@ + main + "/.git/worktrees/"@ + entry + "\n"@),
        ) == Some(main + "/.git/worktrees/"@ + entry),
        inspection(workdir, DotGitView::Directory, head) matches Ok(Some(r)) && r.kind
            == RepoKind::Normal && r.host_repo == workdir && r.host_git == path::below(
            workdir,
            ".git"@,
        ),
        inspection(workdir, DotGitView::Missing, head) matches Ok(None),
{
    reveal_strlit("gitdir: ");
    reveal_strlit("\n");
    reveal_strlit("/");
    reveal_strlit(".");
    reveal_strlit("..");
    reveal_strlit(".git");
    reveal_strlit("worktrees");
    reveal_strlit("/.git");
    reveal_strlit("/.git/worktrees/");
    let git = main + "/"@ + ".git"@;
    let trees = git + "/"@ + "worktrees"@;
    let gd = trees + "/"@ + entry;
    path::lemma_entry_of_directory(main, ".git"@);
    path::lemma_entry_of_directory(git, "worktrees"@);
    path::lemma_entry_of_directory(trees, entry);
    assert(git =~= main + "/.git"@);
    assert(gd =~= main + "/.git/worktrees/"@ + entry);
    let line = "gitdir: "@ + gd;
    assert("gitdir: "@ + main + "/.git/worktrees/"@ + entry + "\n"@ =~= Seq::<char>::empty() + line
        + "\n"@);
    assert(line.last() == entry.last());
    assert(line[0] == 'g');
    text::lemma_stripped_is_the_middle(Seq::empty(), line, "\n"@);
    assert(line.take(8) =~= "gitdir: "@);
    assert(line.skip(8) =~= gd);
    assert(gd[0] == main[0]);
    assert(path::below(workdir, gd) == gd);
}

/// A repository's branch is what `HEAD` names, in full and with its slashes: a `HEAD` that points
/// to a branch gives the name of that branch, and any other `HEAD` gives its own text.
pub proof fn lemma_branch_is_what_head_names(
    workdir: Seq<char>,
    dot: DotGitView,
    b: Seq<char>,
    head: Seq<char>,
)
    requires
        b.len() > 0 ==> !text::is_space(b[0]) && !text::is_space(b.last()),
        !text::has_prefix(b, "ref: refs/heads/"@),
        head == "ref: refs/heads/"@ + b || head == "ref: refs/heads/"@ + b + "\n"@ || head == b
            || head == b + "\n"@,
    ensures
        branch_of(Some(head)) == b,
        inspection(workdir, dot, Some(head)) matches Ok(Some(r)) ==> r.branch == b,
        inspection(workdir, dot, None) matches Ok(Some(r)) ==> r.branch.len() == 0,
{
    reveal_strlit("ref: refs/heads/");
    reveal_strlit("\n");
    let p = "ref: refs/heads/"@;
    assert(text::without_prefixes(b, p) == b);
    assert((p + b).take(p.len() as int) =~= p);
    assert((p + b).skip(p.len() as int) =~= b);
    assert(text::without_prefixes(p + b, p) == b);
    let k = text::Trim::Space;
    if head == p + b || head == p + b + "\n"@ {
        assert(head[0] == 'r');
        assert((p + b).last() == if b.len() > 0 {
            b.last()
        } else {
            '/'
        });
        assert((p + b + "\n"@).drop_last() =~= p + b);
        assert(text::trimmed_left(head, k) == head);
        assert(text::trimmed_right(p + b, k) == p + b);
        if head == p + b + "\n"@ {
            assert(head.last() == '\n');
        }
        assert(text::stripped(head) == p + b);
    } else {
        assert((b + "\n"@).drop_last() =~= b);
        if b.len() == 0 {
            if head.len() > 0 {
                assert(head.skip(1) =~= b);
                assert(text::trimmed_left(b, k) == b);
            }
        } else if head == b + "\n"@ {
            assert(head[0] == b[0]);
            assert(head.last() == '\n');
            assert(text::trimmed_right(b, k) == b);
        }
        assert(text::stripped(head) == b);
    }
}

/// The git directory of a working directory: where its `HEAD` is.
pub fn find_git_dir(workdir: &str, dot: &DotGit) -> (r: Option<String>)
    ensures
        r is Some == git_dir(workdir@, dot@) is Some,
        r matches Some(d) ==> git_dir(workdir@, dot@) == Some(d@),
{
    match dot {
        DotGit::Missing => None,
        DotGit::Directory => Some(path::join(workdir, ".git")),
        DotGit::File(content) => match text::strip_prefix(
            text::trim(content.as_str()),
            "gitdir: ",
        ) {
            Some(gd) => Some(path::join(workdir, gd)),
            None => None,
        },
    }
}

pub fn find_common_dir(gd: &str) -> (r: Option<String>)
    ensures
        r is Some == common_dir(gd@) is Some,
        r matches Some(d) ==> common_dir(gd@) == Some(d@),
{
    match path::parent(gd) {
        Some(p) => path::parent(p.as_str()),
        None => None,
    }
}

/// Tell what a directory is, from what stands at its `.git` and from the `HEAD` of its git
/// directory.
pub fn inspect_repo(workdir: &str, dot: &DotGit, head: Option<&str>) -> (r: Result<
    Option<RepoInfo>,
    RepoFault,
>)
    ensures
        match inspection(workdir@, dot@, crate::util::opt_view(head)) {
            Ok(Some(v)) => r matches Ok(Some(x)) && x@ == v,
            Ok(None) => r matches Ok(None),
            Err(f) => r matches Err(e) && e == f,
        },
{
    match dot {
        DotGit::Missing => Ok(None),
        DotGit::Directory => Ok(
            Some(
                RepoInfo {
                    kind: RepoKind::Normal,
                    host_git: path::join(workdir, ".git"),
                    host_repo: workdir.to_owned(),
                    branch: head_branch(head),
                },
            ),
        ),
        DotGit::File(_) => match find_git_dir(workdir, dot) {
            None => Err(RepoFault::Unrecognized),
            Some(gd) => match find_common_dir(gd.as_str()) {
                None => Err(RepoFault::BadPointer),
                Some(git) => {
                    let host_repo: String = match path::parent(git.as_str()) {
                        Some(p) => p,
                        None => "/".to_owned(),
                    };
                    Ok(
                        Some(
                            RepoInfo {
                                kind: RepoKind::Worktree,
                                host_git: git,
                                host_repo,
                                branch: head_branch(head),
                            },
                        ),
                    )
                },
            },
        },
    }
}

} // verus!
