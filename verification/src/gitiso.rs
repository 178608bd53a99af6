//! A git directory of the VM's own, in front of the host's.
//!
//! The host's `.git` is bound read-only to another place inside the VM, a shared clone of it is
//! made on the VM's disk, and the clone is bound over the path of the host's `.git`. Nothing in
//! the VM can write to the host's repository after that.
use vstd::prelude::*;

use crate::path;
use crate::plan::{self, Step, StepView, Verb};
pub use crate::repo::RepoKind;
use crate::repo::{self, DotGit, DotGitView, RepoFault};
use crate::text;
use crate::util;

verus! {

/// Where the VM keeps the host's `.git`, read-only.
pub const ISO_BASE_GIT: &'static str = "/run/wtx/base.git";

pub struct RepoInfo {
    pub kind: RepoKind,
    pub host_git: String,
    pub host_repo: String,
    /// The name of the worktree in the main repository; empty for an ordinary repository.
    pub worktree_name: String,
    pub branch: String,
}

pub struct RepoView {
    pub kind: RepoKind,
    pub host_git: Seq<char>,
    pub host_repo: Seq<char>,
    pub worktree_name: Seq<char>,
    pub branch: Seq<char>,
}

impl View for RepoInfo {
    type V = RepoView;

    open spec fn view(&self) -> RepoView {
        RepoView {
            kind: self.kind,
            host_git: self.host_git@,
            host_repo: self.host_repo@,
            worktree_name: self.worktree_name@,
            branch: self.branch@,
        }
    }
}

/// The name of a worktree: the last component of its git directory.
pub open spec fn worktree_name(workdir: Seq<char>, dot: DotGitView) -> Seq<char> {
    match dot {
        DotGitView::File(content) => match repo::pointer(workdir, content) {
            Some(gd) => match path::name_of(gd) {
                Some(n) => n,
                None => Seq::empty(),
            },
            None => Seq::empty(),
        },
        _ => Seq::empty(),
    }
}

/// Tell what a directory is, from what stands at its `.git` and from the `HEAD` of its git
/// directory.
pub fn inspect_repo(workdir: &str, dot: &DotGit, head: Option<&str>) -> (r: Result<
    Option<RepoInfo>,
    RepoFault,
>)
    ensures
        match repo::inspection(workdir@, dot@, util::opt_view(head)) {
            Ok(Some(v)) => r matches Ok(Some(x)) && x@ == (RepoView {
                kind: v.kind,
                host_git: v.host_git,
                host_repo: v.host_repo,
                worktree_name: worktree_name(workdir@, dot@),
                branch: v.branch,
            }),
            Ok(None) => r matches Ok(None),
            Err(f) => r matches Err(e) && e == f,
        },
{
    match repo::inspect_repo(workdir, dot, head) {
        Err(f) => Err(f),
        Ok(None) => Ok(None),
        Ok(Some(info)) => {
            let name: String = match dot {
                DotGit::File(_) => match repo::find_git_dir(workdir, dot) {
                    Some(gd) => match path::file_name(gd.as_str()) {
                        Some(n) => n,
                        None => text::empty(),
                    },
                    None => text::empty(),
                },
                _ => text::empty(),
            };
            Ok(
                Some(
                    RepoInfo {
                        kind: info.kind,
                        host_git: info.host_git,
                        host_repo: info.host_repo,
                        worktree_name: name,
                        branch: info.branch,
                    },
                ),
            )
        },
    }
}

pub const SETUP_CHECK: &'static str = r#"

# A marker file tells us whether the VM-local .git is already bind-mounted on top.
# In worktree mode $GITDIR is itself a Lima mount point, so `mountpoint` cannot tell them apart.
if [ -e "$GITDIR/.wtx-local" ]; then exit 0; fi
if [ ! -d "$GITDIR" ]; then
  echo "wtx: $GITDIR is missing inside the VM (mount not set up)" >&2
  exit 1
fi

sudo mkdir -p "$BASE" /var/lib/wtx/git /usr/local/sbin
sudo chown "$(id -u):$(id -g)" /var/lib/wtx/git
mountpoint -q "$BASE" || {
  sudo mount --bind "$GITDIR" "$BASE"
  sudo mount --make-private "$BASE"
  sudo mount -o remount,ro,bind "$BASE"
}
if [ ! -e "$LOCAL/objects/info/alternates" ]; then
  rm -rf "$LOCAL"
  git clone -q --bare --shared "$BASE" "$LOCAL"
  git -C "$LOCAL" config core.bare false
  git -C "$LOCAL" symbolic-ref HEAD "refs/heads/$BRANCH" 2>/dev/null || true
  touch "$LOCAL/.wtx-local""#;

pub const SETUP_WORKTREE: &'static str = r#"
  mkdir -p "$LOCAL/worktrees/$N"
  echo "$WT/.git" > "$LOCAL/worktrees/$N/gitdir"
  echo "../.." > "$LOCAL/worktrees/$N/commondir"
  if [ -f "$BASE/worktrees/$N/HEAD" ]; then
    cp "$BASE/worktrees/$N/HEAD" "$LOCAL/worktrees/$N/HEAD"
  else
    echo "ref: refs/heads/$BRANCH" > "$LOCAL/worktrees/$N/HEAD"
  fi"#;

pub const SETUP_MOUNT: &'static str = r#"
fi
[ -e "$GITDIR/.wtx-local" ] || sudo mount --bind "$LOCAL" "$GITDIR"
git -C "$WT" reset -q

# Recreate the same state after a VM reboot (bind mounts are not persistent)
sudo tee /usr/local/sbin/wtx-gitmount >/dev/null <<EOF
#!/bin/sh
set -e
GITDIR=$GITDIR
LOCAL=$LOCAL
BASE=$BASE
i=0; while [ ! -d "\$GITDIR" ] && [ \$i -lt 60 ]; do sleep 1; i=\$((i+1)); done
mkdir -p "\$BASE"
mountpoint -q "\$BASE" || { mount --bind "\$GITDIR" "\$BASE"; mount --make-private "\$BASE"; mount -o remount,ro,bind "\$BASE"; }
[ -e "\$GITDIR/.wtx-local" ] || mount --bind "\$LOCAL" "\$GITDIR"
EOF
sudo chmod +x /usr/local/sbin/wtx-gitmount
sudo tee /etc/systemd/system/wtx-gitmount.service >/dev/null <<'EOF'
[Unit]
Description=wtx isolated git bind mounts
After=local-fs.target
[Service]
Type=oneshot
RemainAfterExit=yes
ExecStart=/usr/local/sbin/wtx-gitmount
[Install]
WantedBy=multi-user.target
EOF
sudo systemctl daemon-reload
sudo systemctl enable -q wtx-gitmount.service
"#;

/// The script that puts the VM's own git directory in front of the host's. Every value from
/// outside enters it in quotes, as the value of a shell variable.
pub open spec fn isolation_script(vm: Seq<char>, r: RepoView, workdir: Seq<char>) -> Seq<char> {
    "set -eu\nWT="@ + util::quoted(workdir) + "\nGITDIR="@ + util::quoted(r.host_git) + "\nNAME="@
        + util::quoted(vm) + "\nN="@ + util::quoted(r.worktree_name) + "\nBRANCH="@ + util::quoted(
        r.branch,
    ) + "\nLOCAL=/var/lib/wtx/git/$NAME\nBASE="@ + ISO_BASE_GIT@ + SETUP_CHECK@ + (if r.kind
        == RepoKind::Worktree {
        SETUP_WORKTREE@
    } else {
        ""@
    }) + SETUP_MOUNT@
}

pub fn setup_isolated_git(vm: &str, r: &RepoInfo, workdir: &str) -> (script: String)
    ensures
        script@ == isolation_script(vm@, r@, workdir@),
{
    let wt: String = util::shq(workdir);
    let gitdir: String = util::shq(r.host_git.as_str());
    let name: String = util::shq(vm);
    let n: String = util::shq(r.worktree_name.as_str());
    let branch: String = util::shq(r.branch.as_str());
    let worktree: &str = if matches!(r.kind, RepoKind::Worktree) { SETUP_WORKTREE } else { "" };
    "set -eu\nWT=".to_owned().concat(wt.as_str()).concat("\nGITDIR=").concat(
        gitdir.as_str(),
    ).concat("\nNAME=").concat(name.as_str()).concat("\nN=").concat(n.as_str()).concat(
        "\nBRANCH=",
    ).concat(branch.as_str()).concat("\nLOCAL=/var/lib/wtx/git/$NAME\nBASE=").concat(
        ISO_BASE_GIT,
    ).concat(SETUP_CHECK).concat(worktree).concat(SETUP_MOUNT)
}

/// The refs that keep a VM's objects from the host's garbage collection.
pub open spec fn keep_prefix(name: Seq<char>) -> Seq<char> {
    "refs/wtx/keep/"@ + name + "/"@
}

/// The steps that pin the branch tips of a listing of object names and branches.
pub open spec fn pinning(repo: Seq<char>, name: Seq<char>, lines: Seq<Seq<char>>) -> Seq<StepView>
    decreases lines.len(),
{
    if lines.len() == 0 {
        Seq::empty()
    } else {
        let before = pinning(repo, name, lines.drop_last());
        match text::split_at_first(lines.last(), ' ') {
            Some((sha, branch)) => before.push(
                plan::does(
                    Verb::Git,
                    seq![repo, "update-ref"@, keep_prefix(name) + branch, sha],
                ),
            ),
            None => before,
        }
    }
}

/// Pinning writes no refs but the VM's own, among which removal finds them again; branches and
/// the refs of other VMs are left alone.
pub proof fn lemma_pins_are_the_vms_own(repo: Seq<char>, name: Seq<char>, lines: Seq<Seq<char>>)
    ensures
        forall|i: int|
            0 <= i < pinning(repo, name, lines).len() ==> {
                let step = #[trigger] pinning(repo, name, lines)[i];
                &&& step.verb == Verb::Git
                &&& step.args.len() == 4
                &&& step.args[0] == repo
                &&& step.args[1] == "update-ref"@
                &&& text::has_prefix(step.args[2], keep_prefix(name))
            },
    decreases lines.len(),
{
    if lines.len() > 0 {
        lemma_pins_are_the_vms_own(repo, name, lines.drop_last());
        match text::split_at_first(lines.last(), ' ') {
            Some((_, branch)) => {
                let p = keep_prefix(name);
                assert((p + branch).take(p.len() as int) =~= p);
            },
            None => {},
        }
    }
}

/// Pin the branch tips of the host's repository, given what `git for-each-ref` printed, so that
/// objects that a VM refers to survive the host's garbage collection.
pub fn pin_host_objects(host_repo: &str, name: &str, refs: &str) -> (r: Vec<Step>)
    ensures
        plan::steps(r@) == pinning(host_repo@, name@, text::lines_of(refs@)),
{
    let lines: Vec<String> = text::lines(refs);
    let ghost t = text::texts(lines@);
    let mut p: Vec<Step> = plan::nothing();
    let mut i: usize = 0;
    assert(t.take(0) =~= Seq::empty());
    while i < lines.len()
        invariant
            i <= lines@.len(),
            t == text::texts(lines@),
            plan::steps(p@) == pinning(host_repo@, name@, t.take(i as int)),
        decreases lines@.len() - i,
    {
        assert(t.take(i + 1).drop_last() =~= t.take(i as int));
        assert(t.take(i + 1).last() == t[i as int]);
        match text::split_once(lines[i].as_str(), ' ') {
            Some((sha, branch)) => {
                let keep: String = "refs/wtx/keep/".to_owned().concat(name).concat("/").concat(
                    branch,
                );
                plan::push(
                    &mut p,
                    plan::must(
                        Verb::Git,
                        plan::args4(host_repo, "update-ref", keep.as_str(), sha),
                    ),
                );
            },
            None => {},
        }
        i += 1;
    }
    assert(t.take(i as int) =~= t);
    p
}

/// The steps that delete the given refs, as far as that works.
pub open spec fn unpinning(repo: Seq<char>, refs: Seq<Seq<char>>) -> Seq<StepView> {
    Seq::new(
        refs.len(),
        |i: int| plan::tries(Verb::Git, seq![repo, "update-ref"@, "-d"@, refs[i]]),
    )
}

/// Delete a VM's pinning refs, given what `git for-each-ref` printed.
pub fn unpin_host_objects(host_repo: &str, refs: &str) -> (r: Vec<Step>)
    ensures
        plan::steps(r@) == unpinning(host_repo@, text::words(refs@)),
{
    let words: Vec<String> = text::split_whitespace(refs);
    let ghost t = text::texts(words@);
    let mut p: Vec<Step> = plan::nothing();
    let mut i: usize = 0;
    assert(unpinning(host_repo@, t).take(0) =~= Seq::empty());
    while i < words.len()
        invariant
            i <= words@.len(),
            t == text::texts(words@),
            plan::steps(p@) == unpinning(host_repo@, t).take(i as int),
        decreases words@.len() - i,
    {
        let ghost all = unpinning(host_repo@, t);
        plan::push(
            &mut p,
            plan::attempt(
                Verb::Git,
                plan::args4(host_repo, "update-ref", "-d", words[i].as_str()),
            ),
        );
        assert(all.take(i + 1) =~= all.take(i as int).push(all[i as int]));
        i += 1;
    }
    assert(unpinning(host_repo@, t).take(i as int) =~= unpinning(host_repo@, t));
    p
}

/// The arguments of `git` that list a VM's pinning refs.
pub fn keep_refs_args(name: &str) -> (r: Vec<String>)
    ensures
        text::texts(r@) == seq!["for-each-ref"@, "--format=%(refname)"@, keep_prefix(name@)],
{
    let prefix: String = "refs/wtx/keep/".to_owned().concat(name).concat("/");
    plan::args3("for-each-ref", "--format=%(refname)", prefix.as_str())
}

/// The refs of a repository, by their names, after a step of `git` on it.
pub open spec fn refs_after_step(
    repo: Seq<char>,
    refs: Map<Seq<char>, Seq<char>>,
    s: StepView,
) -> Map<Seq<char>, Seq<char>> {
    if s.verb == Verb::Git && s.args.len() == 4 && s.args[0] == repo && s.args[1]
        == "update-ref"@ {
        if s.args[2] == "-d"@ {
            refs.remove(s.args[3])
        } else {
            refs.insert(s.args[2], s.args[3])
        }
    } else {
        refs
    }
}

/// The refs of a repository after steps that `git` carries out.
pub open spec fn refs_after(
    repo: Seq<char>,
    refs: Map<Seq<char>, Seq<char>>,
    steps: Seq<StepView>,
) -> Map<Seq<char>, Seq<char>>
    decreases steps.len(),
{
    if steps.len() == 0 {
        refs
    } else {
        refs_after_step(repo, refs_after(repo, refs, steps.drop_last()), steps.last())
    }
}

/// The refs after pinning, once for each listing of branch tips.
pub open spec fn refs_pinned(
    repo: Seq<char>,
    name: Seq<char>,
    refs: Map<Seq<char>, Seq<char>>,
    listings: Seq<Seq<Seq<char>>>,
) -> Map<Seq<char>, Seq<char>>
    decreases listings.len(),
{
    if listings.len() == 0 {
        refs
    } else {
        refs_after(
            repo,
            refs_pinned(repo, name, refs, listings.drop_last()),
            pinning(repo, name, listings.last()),
        )
    }
}

/// Whether a ref is one of those that pin a VM's objects.
pub open spec fn pins_for(name: Seq<char>, r: Seq<char>) -> bool {
    text::has_prefix(r, keep_prefix(name))
}

/// The refs that pin nothing for a VM.
pub open spec fn without_pins(name: Seq<char>, refs: Map<Seq<char>, Seq<char>>) -> Map<
    Seq<char>,
    Seq<char>,
> {
    Map::new(|r: Seq<char>| refs.dom().contains(r) && !pins_for(name, r), |r: Seq<char>| refs[r])
}

/// Whether a list holds exactly the refs that pin a VM's objects, as `git for-each-ref` lists
/// them below the VM's prefix.
pub open spec fn lists_pins(
    name: Seq<char>,
    refs: Map<Seq<char>, Seq<char>>,
    listed: Seq<Seq<char>>,
) -> bool {
    forall|r: Seq<char>| #[trigger]
        listed.contains(r) <==> refs.dom().contains(r) && pins_for(name, r)
}

/// Names as `git for-each-ref` prints them, one to a line.
pub open spec fn printed(names: Seq<Seq<char>>) -> Seq<char>
    decreases names.len(),
{
    if names.len() == 0 {
        Seq::empty()
    } else {
        names[0] + ("\n"@ + printed(names.skip(1)))
    }
}

/// Whether a text is one word, as the name of a ref is.
pub open spec fn one_word(s: Seq<char>) -> bool {
    s.len() > 0 && forall|i: int| 0 <= i < s.len() ==> !text::is_space(#[trigger] s[i])
}

proof fn lemma_first_space(s: Seq<char>, rest: Seq<char>)
    requires
        forall|i: int| 0 <= i < s.len() ==> !text::is_space(#[trigger] s[i]),
    ensures
        text::find_space(s + ("\n"@ + rest)) == s.len(),
    decreases s.len(),
{
    reveal_strlit("\n");
    let all = s + ("\n"@ + rest);
    if s.len() == 0 {
        assert(all[0] == '\n');
    } else {
        assert(all[0] == s[0]);
        assert(all.skip(1) =~= s.skip(1) + ("\n"@ + rest));
        assert forall|i: int| 0 <= i < s.skip(1).len() implies !text::is_space(
            #[trigger] s.skip(1)[i],
        ) by {
            assert(s.skip(1)[i] == s[i + 1]);
        }
        lemma_first_space(s.skip(1), rest);
    }
}

/// The names of refs are read as they are printed.
pub proof fn lemma_printed_names_are_read(names: Seq<Seq<char>>)
    requires
        forall|i: int| 0 <= i < names.len() ==> one_word(#[trigger] names[i]),
    ensures
        text::words(printed(names)) == names,
    decreases names.len(),
{
    if names.len() > 0 {
        reveal_strlit("\n");
        let rest = names.skip(1);
        assert forall|i: int| 0 <= i < rest.len() implies one_word(#[trigger] rest[i]) by {
            assert(rest[i] == names[i + 1]);
        }
        lemma_printed_names_are_read(rest);
        let w = names[0];
        let all = printed(names);
        let tail = "\n"@ + printed(rest);
        assert(one_word(w));
        lemma_first_space(w, printed(rest));
        assert(all[0] == w[0]);
        assert(all.take(w.len() as int) =~= w);
        assert(all.skip(w.len() as int) =~= tail);
        assert(tail.skip(1) =~= printed(rest));
        assert(text::words(tail) == text::words(printed(rest)));
        assert(seq![w] + rest =~= names);
    }
}

/// Lines are read as they are printed.
pub proof fn lemma_printed_lines_are_read(names: Seq<Seq<char>>)
    requires
        forall|i: int|
            0 <= i < names.len() ==> !(#[trigger] names[i]).contains('\n') && (names[i].len() > 0
                ==> names[i].last() != '\r'),
    ensures
        text::lines_of(printed(names)) == names,
    decreases names.len(),
{
    if names.len() > 0 {
        reveal_strlit("\n");
        let rest = names.skip(1);
        assert forall|i: int| 0 <= i < rest.len() implies !(#[trigger] rest[i]).contains('\n') && (
        rest[i].len() > 0 ==> rest[i].last() != '\r') by {
            assert(rest[i] == names[i + 1]);
        }
        lemma_printed_lines_are_read(rest);
        let all = printed(names);
        let a = names[0];
        assert(all =~= a.push('\n') + printed(rest));
        text::lemma_split_at_first(a, '\n', printed(rest));
        let at = text::find(all, '\n');
        assert(at < all.len());
        assert(all.take(at) == a && all.skip(at + 1) == printed(rest));
        assert(text::without_cr(a) == a);
        assert(text::lines_of(all) == seq![a] + text::lines_of(printed(rest)));
        assert(seq![a] + rest =~= names);
    }
}

proof fn lemma_pinning_keeps_the_rest(
    repo: Seq<char>,
    name: Seq<char>,
    refs: Map<Seq<char>, Seq<char>>,
    lines: Seq<Seq<char>>,
)
    ensures
        without_pins(name, refs_after(repo, refs, pinning(repo, name, lines))) == without_pins(
            name,
            refs,
        ),
    decreases lines.len(),
{
    if lines.len() > 0 {
        let f = lines.drop_last();
        lemma_pinning_keeps_the_rest(repo, name, refs, f);
        match text::split_at_first(lines.last(), ' ') {
            Some((sha, branch)) => {
                let all = pinning(repo, name, lines);
                let before = refs_after(repo, refs, pinning(repo, name, f));
                let keep = keep_prefix(name) + branch;
                assert(all.drop_last() =~= pinning(repo, name, f));
                reveal_strlit("refs/wtx/keep/");
                reveal_strlit("-d");
                assert(keep[0] == 'r');
                assert(keep != "-d"@);
                assert(keep.take(keep_prefix(name).len() as int) =~= keep_prefix(name));
                assert(refs_after(repo, refs, all) == before.insert(keep, sha));
                assert(without_pins(name, before.insert(keep, sha)) =~= without_pins(name, before));
            },
            None => {},
        }
    }
}

proof fn lemma_unpinned(
    repo: Seq<char>,
    refs: Map<Seq<char>, Seq<char>>,
    listed: Seq<Seq<char>>,
)
    ensures
        refs_after(repo, refs, unpinning(repo, listed)) == refs.remove_keys(listed.to_set()),
    decreases listed.len(),
{
    let all = unpinning(repo, listed);
    let gone = refs.remove_keys(listed.to_set());
    if listed.len() == 0 {
        assert(gone =~= refs);
    } else {
        let f = listed.drop_last();
        lemma_unpinned(repo, refs, f);
        assert(all.drop_last() =~= unpinning(repo, f));
        assert(all.last() == plan::tries(
            Verb::Git,
            seq![repo, "update-ref"@, "-d"@, listed.last()],
        ));
        assert forall|r: Seq<char>| #[trigger] listed.contains(r) <==> (f.contains(r) || r
            == listed.last()) by {
            if f.contains(r) {
                let i = choose|i: int| 0 <= i < f.len() && f[i] == r;
                assert(listed[i] == r);
            }
            if listed.contains(r) && r != listed.last() {
                let i = choose|i: int| 0 <= i < listed.len() && listed[i] == r;
                assert(f[i] == r);
            }
            assert(listed[listed.len() - 1] == listed.last());
        }
        assert(refs.remove_keys(f.to_set()).remove(listed.last()) =~= gone);
    }
}

/// Unpinning undoes pinning: however often a VM's objects were pinned, after the refs that
/// `git for-each-ref` then prints below the VM's prefix are deleted none of them is left, and every
/// other ref is what it was before the first pinning.
pub proof fn lemma_unpinning_undoes_pinning(
    repo: Seq<char>,
    name: Seq<char>,
    refs: Map<Seq<char>, Seq<char>>,
    listings: Seq<Seq<Seq<char>>>,
    listed: Seq<Seq<char>>,
)
    requires
        lists_pins(name, refs_pinned(repo, name, refs, listings), listed),
        forall|i: int| 0 <= i < listed.len() ==> one_word(#[trigger] listed[i]),
    ensures
        refs_after(
            repo,
            refs_pinned(repo, name, refs, listings),
            unpinning(repo, text::words(printed(listed))),
        ) == without_pins(name, refs),
{
    let pinned = refs_pinned(repo, name, refs, listings);
    lemma_pinned_keeps_the_rest(repo, name, refs, listings);
    lemma_printed_names_are_read(listed);
    lemma_unpinned(repo, pinned, listed);
    assert(pinned.remove_keys(listed.to_set()) =~= without_pins(name, pinned)) by {
        assert forall|r: Seq<char>| listed.to_set().contains(r) == listed.contains(r) by {}
    }
}

proof fn lemma_pinned_keeps_the_rest(
    repo: Seq<char>,
    name: Seq<char>,
    refs: Map<Seq<char>, Seq<char>>,
    listings: Seq<Seq<Seq<char>>>,
)
    ensures
        without_pins(name, refs_pinned(repo, name, refs, listings)) == without_pins(name, refs),
    decreases listings.len(),
{
    if listings.len() > 0 {
        let f = listings.drop_last();
        lemma_pinned_keeps_the_rest(repo, name, refs, f);
        lemma_pinning_keeps_the_rest(
            repo,
            name,
            refs_pinned(repo, name, refs, f),
            listings.last(),
        );
    }
}

/// A ref pins the objects of one VM at most, also where the name of one VM begins with that of
/// another: what is deleted for one VM pins nothing for any other.
pub proof fn lemma_pins_belong_to_one_vm(name: Seq<char>, other: Seq<char>, r: Seq<char>)
    requires
        !name.contains('/'),
        !other.contains('/'),
        pins_for(name, r),
        pins_for(other, r),
    ensures
        name == other,
{
    reveal_strlit("/");
    let n = "refs/wtx/keep/"@.len() as int;
    let a = keep_prefix(name);
    let b = keep_prefix(other);
    assert(r.take(a.len() as int) == a && r.take(b.len() as int) == b);
    assert(a[n + name.len()] == '/');
    assert(b[n + other.len()] == '/');
    assert(r[n + name.len()] == '/');
    assert(r[n + other.len()] == '/');
    if name.len() < other.len() {
        assert(b[n + name.len()] == other[name.len() as int]);
        assert(other.contains('/'));
    } else if other.len() < name.len() {
        assert(a[n + other.len()] == name[other.len() as int]);
        assert(name.contains('/'));
    } else {
        assert forall|i: int| 0 <= i < name.len() implies name[i] == other[i] by {
            assert(a[n + i] == name[i] && b[n + i] == other[i]);
            assert(r[n + i] == a[n + i]);
            assert(r[n + i] == b[n + i]);
        }
        assert(name =~= other);
    }
}

/// Unpinning a VM's objects leaves those of every other VM pinned as they were.
pub proof fn lemma_unpinning_spares_other_vms(
    repo: Seq<char>,
    name: Seq<char>,
    other: Seq<char>,
    refs: Map<Seq<char>, Seq<char>>,
    listings: Seq<Seq<Seq<char>>>,
    listed: Seq<Seq<char>>,
    r: Seq<char>,
)
    requires
        !name.contains('/'),
        !other.contains('/'),
        name != other,
        pins_for(other, r),
        lists_pins(name, refs_pinned(repo, name, refs, listings), listed),
        forall|i: int| 0 <= i < listed.len() ==> one_word(#[trigger] listed[i]),
    ensures
        ({
            let after = refs_after(
                repo,
                refs_pinned(repo, name, refs, listings),
                unpinning(repo, text::words(printed(listed))),
            );
            &&& after.dom().contains(r) <==> refs.dom().contains(r)
            &&& refs.dom().contains(r) ==> after[r] == refs[r]
        }),
{
    lemma_unpinning_undoes_pinning(repo, name, refs, listings, listed);
    if pins_for(name, r) {
        lemma_pins_belong_to_one_vm(name, other, r);
    }
}

/// Whether the lines are those of a listing of branch tips: an object, a space and a branch each.
pub open spec fn tip_lines(
    lines: Seq<Seq<char>>,
    shas: Seq<Seq<char>>,
    branches: Seq<Seq<char>>,
) -> bool {
    &&& lines.len() == shas.len() == branches.len()
    &&& forall|i: int|
        0 <= i < lines.len() ==> #[trigger] lines[i] == shas[i] + " "@ + branches[i]
            && !shas[i].contains(' ')
}

/// Every branch tip of a listing is pinned, in the listing's order: the ref of its branch below
/// the VM's own prefix is set to the object at its tip. The objects to look up are those of all
/// tips.
pub proof fn lemma_every_tip_is_pinned(
    repo: Seq<char>,
    name: Seq<char>,
    lines: Seq<Seq<char>>,
    shas: Seq<Seq<char>>,
    branches: Seq<Seq<char>>,
)
    requires
        tip_lines(lines, shas, branches),
    ensures
        pinning(repo, name, lines).len() == lines.len(),
        forall|i: int|
            0 <= i < lines.len() ==> (#[trigger] pinning(repo, name, lines)[i]).verb == Verb::Git
                && pinning(repo, name, lines)[i].on_fail == plan::OnFail::Abort && pinning(
                repo,
                name,
                lines,
            )[i].args == seq![
                repo,
                "update-ref"@,
                "refs/wtx/keep/"@ + name + "/"@ + branches[i],
                shas[i],
            ],
        tips_of(lines) == shas,
    decreases lines.len(),
{
    if lines.len() > 0 {
        let (f, s, b) = (lines.drop_last(), shas.drop_last(), branches.drop_last());
        assert forall|i: int| 0 <= i < f.len() implies #[trigger] f[i] == s[i] + " "@ + b[i]
            && !s[i].contains(' ') by {
            assert(f[i] == lines[i]);
        }
        lemma_every_tip_is_pinned(repo, name, f, s, b);
        let k = lines.len() - 1;
        lemma_tip_line(lines[k], shas[k], branches[k]);
        assert(tips_of(lines) =~= shas);
    }
}

proof fn lemma_tip_line(line: Seq<char>, sha: Seq<char>, branch: Seq<char>)
    requires
        line == sha + " "@ + branch,
        !sha.contains(' '),
    ensures
        text::split_at_first(line, ' ') == Some((sha, branch)),
{
    reveal_strlit(" ");
    assert(line =~= sha.push(' ') + branch);
    text::lemma_split_at_first(sha, ' ', branch);
}

/// The branches that the host has not fetched are exactly those whose tip it lacks.
pub proof fn lemma_unfetched_are_those_that_lack(
    lines: Seq<Seq<char>>,
    shas: Seq<Seq<char>>,
    branches: Seq<Seq<char>>,
    lacking: Seq<Seq<char>>,
    x: Seq<char>,
)
    requires
        tip_lines(lines, shas, branches),
    ensures
        branches_at(lines, lacking).contains(x) <==> exists|i: int|
            0 <= i < lines.len() && #[trigger] branches[i] == x && lacking.contains(shas[i]),
    decreases lines.len(),
{
    let all = branches_at(lines, lacking);
    if lines.len() > 0 {
        let (f, s, b) = (lines.drop_last(), shas.drop_last(), branches.drop_last());
        assert forall|i: int| 0 <= i < f.len() implies #[trigger] f[i] == s[i] + " "@ + b[i]
            && !s[i].contains(' ') by {
            assert(f[i] == lines[i]);
        }
        lemma_unfetched_are_those_that_lack(f, s, b, lacking, x);
        let k = lines.len() - 1;
        lemma_tip_line(lines[k], shas[k], branches[k]);
        let before = branches_at(f, lacking);
        if before.contains(x) {
            let j = choose|j: int| 0 <= j < before.len() && before[j] == x;
            assert(all[j] == x);
            let i = choose|i: int|
                0 <= i < f.len() && #[trigger] b[i] == x && lacking.contains(s[i]);
            assert(branches[i] == x);
        }
        if lacking.contains(shas[k]) && branches[k] == x {
            assert(all[all.len() - 1] == x);
        }
        if all.contains(x) && !before.contains(x) {
            let j = choose|j: int| 0 <= j < all.len() && all[j] == x;
            if j < before.len() {
                assert(before[j] == x);
            }
            assert(branches[k] == x && lacking.contains(shas[k]));
        }
        if exists|i: int|
            0 <= i < lines.len() && #[trigger] branches[i] == x && lacking.contains(shas[i]) {
            let i = choose|i: int|
                0 <= i < lines.len() && #[trigger] branches[i] == x && lacking.contains(shas[i]);
            if i < k {
                assert(b[i] == x && s[i] == shas[i]);
            }
        }
    }
}

/// Whether a VM has a git directory of its own, from what `git` printed of its pinning refs: only
/// such a VM has any.
pub fn is_legacy(refs: &str) -> (r: bool)
    ensures
        r == (text::words(refs@).len() > 0),
{
    let words: Vec<String> = text::split_whitespace(refs);
    assert(text::texts(words@).len() == words@.len());
    words.len() > 0
}

/// The path of a VM's own git directory inside the VM. It outlives the worktree, so commits of
/// an orphaned VM are recovered from it.
pub fn vm_git_path(vm: &str) -> (r: String)
    ensures
        r@ == "/var/lib/wtx/git/"@ + vm@,
{
    "/var/lib/wtx/git/".to_owned().concat(vm)
}

/// The command that lists the branch tips of a VM's own git directory.
pub fn branch_tips_command(vm: &str) -> (r: String)
    ensures
        r@ == "git -C "@ + util::quoted("/var/lib/wtx/git/"@ + vm@)
            + " for-each-ref --format='%(objectname) %(refname:short)' refs/heads/"@,
{
    let dir: String = vm_git_path(vm);
    let q: String = util::shq(dir.as_str());
    "git -C ".to_owned().concat(q.as_str()).concat(
        " for-each-ref --format='%(objectname) %(refname:short)' refs/heads/",
    )
}

/// The branches of a listing whose tip is among the given objects.
pub open spec fn branches_at(lines: Seq<Seq<char>>, shas: Seq<Seq<char>>) -> Seq<Seq<char>>
    decreases lines.len(),
{
    if lines.len() == 0 {
        Seq::empty()
    } else {
        let before = branches_at(lines.drop_last(), shas);
        match text::split_at_first(lines.last(), ' ') {
            Some((sha, branch)) => if shas.contains(sha) {
                before.push(branch)
            } else {
                before
            },
            None => before,
        }
    }
}

/// The objects at the tips of a listing.
pub open spec fn tips_of(lines: Seq<Seq<char>>) -> Seq<Seq<char>>
    decreases lines.len(),
{
    if lines.len() == 0 {
        Seq::empty()
    } else {
        let before = tips_of(lines.drop_last());
        match text::split_at_first(lines.last(), ' ') {
            Some((sha, _)) => before.push(sha),
            None => before,
        }
    }
}

/// The objects whose presence on the host has to be looked up.
pub fn branch_tips(listing: &str) -> (r: Vec<String>)
    ensures
        text::texts(r@) == tips_of(text::lines_of(listing@)),
{
    let lines: Vec<String> = text::lines(listing);
    let ghost t = text::texts(lines@);
    let mut out: Vec<String> = Vec::new();
    let mut i: usize = 0;
    assert(t.take(0) =~= Seq::empty());
    assert(text::texts(out@) =~= Seq::empty());
    while i < lines.len()
        invariant
            i <= lines@.len(),
            t == text::texts(lines@),
            text::texts(out@) == tips_of(t.take(i as int)),
        decreases lines@.len() - i,
    {
        assert(t.take(i + 1).drop_last() =~= t.take(i as int));
        assert(t.take(i + 1).last() == t[i as int]);
        match text::split_once(lines[i].as_str(), ' ') {
            Some((sha, _)) => {
                text::push_text(&mut out, sha);
            },
            None => {},
        }
        i += 1;
    }
    assert(t.take(i as int) =~= t);
    out
}

/// The branches that the host has not fetched, given a VM's listing of branch tips and the
/// objects among them that the host lacks.
pub fn unfetched_branches(listing: &str, lacking: &Vec<String>) -> (r: Vec<String>)
    ensures
        text::texts(r@) == branches_at(text::lines_of(listing@), text::texts(lacking@)),
{
    let lines: Vec<String> = text::lines(listing);
    let ghost t = text::texts(lines@);
    let mut out: Vec<String> = Vec::new();
    let mut i: usize = 0;
    assert(t.take(0) =~= Seq::empty());
    assert(text::texts(out@) =~= Seq::empty());
    while i < lines.len()
        invariant
            i <= lines@.len(),
            t == text::texts(lines@),
            text::texts(out@) == branches_at(t.take(i as int), text::texts(lacking@)),
        decreases lines@.len() - i,
    {
        assert(t.take(i + 1).drop_last() =~= t.take(i as int));
        assert(t.take(i + 1).last() == t[i as int]);
        match text::split_once(lines[i].as_str(), ' ') {
            Some((sha, branch)) => {
                if text::list_contains(lacking, sha) {
                    text::push_text(&mut out, branch);
                }
            },
            None => {},
        }
        i += 1;
    }
    assert(t.take(i as int) =~= t);
    out
}

/// A fetch of a VM's branches into the host's repository.
pub struct Sync {
    /// The value of `GIT_SSH_COMMAND`.
    pub ssh_command: String,
    pub args: Vec<String>,
    /// What to tell the user after the fetch.
    pub line: Option<String>,
}

/// What the user hears after a fetch: how to merge, or where the commits are if the worktree is
/// gone.
pub open spec fn sync_line(
    name: Seq<char>,
    workdir: Seq<char>,
    branch: Seq<char>,
    workdir_exists: bool,
) -> Option<Seq<char>> {
    if branch.len() == 0 {
        None
    } else if workdir_exists {
        Some(
            "to merge: git -C "@ + workdir + " merge --ff-only refs/wtx/"@ + name + "/"@ + branch,
        )
    } else {
        Some(
            "fetched into refs/wtx/"@ + name + "/"@ + branch
                + " (the worktree is gone; check it out where you need it)"@,
        )
    }
}

/// After a fetch the user hears of the branch under the VM's own refs, and how to merge it if its
/// worktree is there; without a branch there is nothing to say.
pub proof fn lemma_sync_line(name: Seq<char>, workdir: Seq<char>, branch: Seq<char>)
    ensures
        branch.len() == 0 ==> sync_line(name, workdir, branch, true) is None && sync_line(
            name,
            workdir,
            branch,
            false,
        ) is None,
        branch.len() > 0 ==> sync_line(name, workdir, branch, true) == Some(
            "to merge: git -C "@ + workdir + " merge --ff-only refs/wtx/"@ + name + "/"@ + branch,
        ),
        branch.len() > 0 ==> (sync_line(name, workdir, branch, false) matches Some(l)
            && text::has_prefix(l, "fetched into refs/wtx/"@ + name + "/"@ + branch)),
{
    if branch.len() > 0 {
        let p = "fetched into refs/wtx/"@ + name + "/"@ + branch;
        let l = sync_line(name, workdir, branch, false)->0;
        assert(l.take(p.len() as int) =~= p);
    }
}

/// Fetch the branches of a VM as `refs/wtx/<name>/*`.
pub fn sync(
    home: &str,
    name: &str,
    workdir: &str,
    branch: &str,
    isolated: bool,
    workdir_exists: bool,
) -> (r: Sync)
    ensures
        r.ssh_command@ == "ssh -F "@ + util::quoted(
            path::below(util::lima_dir_of(home@, name@), "ssh.config"@),
        ) + " -o ControlMaster=no -o ControlPath=none"@,
        text::texts(r.args@) == seq![
            "fetch"@,
            "lima-"@ + name@ + ":"@ + (if isolated {
                "/var/lib/wtx/git/"@ + name@
            } else {
                workdir@
            }),
            "+refs/heads/*:refs/wtx/"@ + name@ + "/*"@,
        ],
        r.line is Some == sync_line(name@, workdir@, branch@, workdir_exists) is Some,
        r.line matches Some(l) ==> sync_line(name@, workdir@, branch@, workdir_exists) == Some(l@),
{
    let config: String = path::join(util::lima_dir(home, name).as_str(), "ssh.config");
    let q: String = util::shq(config.as_str());
    let ssh_command: String = "ssh -F ".to_owned().concat(q.as_str()).concat(
        " -o ControlMaster=no -o ControlPath=none",
    );
    let remote: String = if isolated { vm_git_path(name) } else { workdir.to_owned() };
    let source: String = "lima-".to_owned().concat(name).concat(":").concat(remote.as_str());
    let refs: String = "+refs/heads/*:refs/wtx/".to_owned().concat(name).concat("/*");
    let line: Option<String> = if branch.is_empty() {
        None
    } else if workdir_exists {
        Some(
            "to merge: git -C ".to_owned().concat(workdir).concat(
                " merge --ff-only refs/wtx/",
            ).concat(name).concat("/").concat(branch),
        )
    } else {
        Some(
            "fetched into refs/wtx/".to_owned().concat(name).concat("/").concat(branch).concat(
                " (the worktree is gone; check it out where you need it)",
            ),
        )
    };
    Sync { ssh_command, args: plan::args3("fetch", source.as_str(), refs.as_str()), line }
}

} // verus!
