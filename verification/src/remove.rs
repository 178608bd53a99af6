//! Removing VMs.
use vstd::prelude::*;

use crate::gitiso;
use crate::inspect::{self, Instance, InstanceView, RECEIPT_SCHEMA_VERSION};
use crate::json::{self, Json, JsonView};
use crate::lima::{self, InstanceMeta, MetaView};
use crate::plan::{self, OnFail, Step, StepView, Verb};
use crate::sim;
use crate::sshx;
use crate::text;

verus! {

/// The options of `wtx rm`.
#[derive(Clone, Copy, PartialEq, Eq, Structural, Debug)]
pub struct RemoveOpts {
    pub with_worktree: bool,
    pub if_exists: bool,
    pub json: bool,
}

impl Default for RemoveOpts {
    fn default() -> (r: Self)
        ensures
            r == (RemoveOpts { with_worktree: false, if_exists: false, json: false }),
    {
        RemoveOpts { with_worktree: false, if_exists: false, json: false }
    }
}

#[derive(Clone, Copy, PartialEq, Eq, Structural, Debug)]
pub enum RemoveAction {
    Deleted,
    NotFound,
}

/// A removal: what will be reported, and its steps.
pub struct Removal {
    pub action: RemoveAction,
    pub steps: Vec<Step>,
}

/// Whether a record is that of a linked worktree, which may be removed. The directory of an
/// ordinary repository is the only copy of it.
pub open spec fn is_linked_worktree(m: MetaView) -> bool {
    m.main_repo.len() != 0 && m.main_repo != m.workdir
}

/// The steps that remove a VM's worktree.
pub open spec fn removing_worktree(
    name: Seq<char>,
    meta: Option<MetaView>,
    workdir_exists: bool,
    quiet: bool,
) -> Seq<StepView> {
    match meta {
        None => seq![
            plan::fails("no metadata for "@ + name + "; cannot locate the worktree"@),
        ],
        Some(m) => if !is_linked_worktree(m) {
            seq![
                plan::complains(
                    "wtx: "@ + name + " is not a linked worktree; left "@ + m.workdir
                        + " in place"@,
                ),
            ]
        } else if !workdir_exists {
            seq![plan::complains("wtx: worktree "@ + m.workdir + " is already gone"@)]
        } else {
            let step = plan::noted(
                Verb::GitShown,
                seq![m.main_repo, "worktree"@, "remove"@, "--force"@, m.workdir],
                OnFail::WarnWith,
                "wtx: could not remove worktree "@ + m.workdir + " (remove it manually)"@,
            );
            seq![
                if quiet {
                    step
                } else {
                    plan::announced(step, "removed worktree "@ + m.workdir)
                },
            ]
        },
    }
}

pub fn remove_linked_worktree(
    name: &str,
    meta: Option<&InstanceMeta>,
    workdir_exists: bool,
    quiet: bool,
) -> (r: Vec<Step>)
    ensures
        plan::steps(r@) == removing_worktree(
            name@,
            lima::opt_meta_ref(meta),
            workdir_exists,
            quiet,
        ),
{
    match meta {
        None => {
            let e: String = "no metadata for ".to_owned().concat(name).concat(
                "; cannot locate the worktree",
            );
            plan::one(plan::fail(e.as_str()))
        },
        Some(m) => {
            let workdir: &str = m.workdir.as_str();
            let main_repo: &str = m.main_repo.as_str();
            if main_repo.is_empty() || text::same(main_repo, workdir) {
                let w: String = "wtx: ".to_owned().concat(name).concat(
                    " is not a linked worktree; left ",
                ).concat(workdir).concat(" in place");
                plan::one(plan::complain(w.as_str()))
            } else if !workdir_exists {
                let w: String = "wtx: worktree ".to_owned().concat(workdir).concat(
                    " is already gone",
                );
                plan::one(plan::complain(w.as_str()))
            } else {
                let w: String = "wtx: could not remove worktree ".to_owned().concat(workdir).concat(
                    " (remove it manually)",
                );
                let step: Step = plan::with_note(
                    Verb::GitShown,
                    plan::args5(main_repo, "worktree", "remove", "--force", workdir),
                    OnFail::WarnWith,
                    w.as_str(),
                );
                if quiet {
                    plan::one(step)
                } else {
                    let line: String = "removed worktree ".to_owned().concat(workdir);
                    plan::one(plan::announce(step, line.as_str()))
                }
            }
        },
    }
}

/// The facts that a removal depends on.
pub struct RemoveFacts<'a> {
    pub home: &'a str,
    pub name: &'a str,
    pub meta: Option<&'a InstanceMeta>,
    pub vm_exists: bool,
    /// What `git for-each-ref` printed of the refs that older versions kept for the VM.
    pub keep_refs: &'a str,
    /// The files in wtx's directory.
    pub files: &'a Vec<String>,
    pub workdir_exists: bool,
}

/// The steps that delete a VM and everything that belongs to it: its forwards, its simulator, the
/// instance itself and then its files. The files go last, so that a removal that failed can be
/// tried again.
pub open spec fn deleting(f: RemoveFacts, opts: RemoveOpts) -> Seq<StepView> {
    let meta = lima::opt_meta_ref(f.meta);
    (match meta {
        Some(m) => if m.main_repo.len() == 0 {
            Seq::empty()
        } else {
            gitiso::unpinning(m.main_repo, text::words(f.keep_refs@))
        },
        None => Seq::empty(),
    }) + sshx::closing_all(f.name@, text::texts(f.files@)) + (match meta {
        Some(m) => sim::deleting(m.sim_udid, opts.json),
        None => Seq::empty(),
    }) + (if f.vm_exists {
        seq![
            plan::noted(
                Verb::LimactlCapture,
                seq!["delete"@, "-f"@, f.name@],
                OnFail::AbortAs,
                "limactl delete"@,
            ),
        ]
    } else {
        Seq::empty()
    }) + seq![
        removing_file(lima::yaml_path_of(f.home@, f.name@)),
        removing_file(lima::record_path(f.home@, f.name@)),
    ] + (if opts.with_worktree {
        removing_worktree(f.name@, meta, f.workdir_exists, opts.json)
    } else {
        Seq::empty()
    })
}

pub open spec fn removing_file(file: Seq<char>) -> StepView {
    plan::noted(Verb::RemoveManaged, seq![file], OnFail::AbortAs, "remove "@ + file)
}

fn remove_managed_file(file: &str) -> (r: Step)
    ensures
        r@ == removing_file(file@),
{
    let note: String = "remove ".to_owned().concat(file);
    plan::with_note(Verb::RemoveManaged, plan::args1(file), OnFail::AbortAs, note.as_str())
}

/// Decide about the removal of a VM. A VM of which nothing is left is an error, or with
/// `--if-exists` nothing to do.
pub fn remove_instance(f: &RemoveFacts, opts: RemoveOpts) -> (r: Result<Removal, String>)
    ensures
        if !f.vm_exists && f.meta is None {
            if opts.if_exists {
                r matches Ok(x) && x.action == RemoveAction::NotFound && plan::steps(x.steps@)
                    == Seq::<StepView>::empty()
            } else {
                r matches Err(e) && e@ == "no such wtx VM: "@ + f.name@
            }
        } else {
            r matches Ok(x) && x.action == RemoveAction::Deleted && plan::steps(x.steps@)
                == deleting(*f, opts)
        },
{
    if !f.vm_exists && f.meta.is_none() {
        if !opts.if_exists {
            return Err("no such wtx VM: ".to_owned().concat(f.name));
        }
        return Ok(Removal { action: RemoveAction::NotFound, steps: plan::nothing() });
    }
    let mut p: Vec<Step> = plan::nothing();
    match f.meta {
        Some(m) => {
            if !m.main_repo.as_str().is_empty() {
                plan::append(
                    &mut p,
                    gitiso::unpin_host_objects(m.main_repo.as_str(), f.keep_refs),
                );
            }
        },
        None => {},
    }
    plan::append(&mut p, sshx::close_all_forwards(f.name, f.files));
    match f.meta {
        Some(m) => {
            plan::append(&mut p, sim::delete_device(m.sim_udid.as_str(), opts.json));
        },
        None => {},
    }
    if f.vm_exists {
        plan::push(
            &mut p,
            plan::with_note(
                Verb::LimactlCapture,
                plan::args3("delete", "-f", f.name),
                OnFail::AbortAs,
                "limactl delete",
            ),
        );
    }
    let yaml: String = lima::yaml_path(f.home, f.name);
    let record: String = lima::meta_path(f.home, f.name);
    plan::push(&mut p, remove_managed_file(yaml.as_str()));
    plan::push(&mut p, remove_managed_file(record.as_str()));
    if opts.with_worktree {
        plan::append(
            &mut p,
            remove_linked_worktree(f.name, f.meta, f.workdir_exists, opts.json),
        );
    }
    assert(plan::steps(p@) =~= deleting(*f, opts));
    Ok(Removal { action: RemoveAction::Deleted, steps: p })
}

/// What a removal reports on standard output without `--json`.
pub open spec fn report_line(name: Seq<char>, action: RemoveAction) -> Option<Seq<char>> {
    match action {
        RemoveAction::NotFound => Some("not_found: "@ + name),
        RemoveAction::Deleted => None,
    }
}

pub open spec fn action_text(action: RemoveAction) -> Seq<char> {
    match action {
        RemoveAction::Deleted => "deleted"@,
        RemoveAction::NotFound => "not_found"@,
    }
}

/// The line of `wtx rm`.
pub fn remove_report(name: &str, action: RemoveAction) -> (r: Option<String>)
    ensures
        r is Some == report_line(name@, action) is Some,
        r matches Some(l) ==> report_line(name@, action) == Some(l@),
{
    match action {
        RemoveAction::NotFound => Some("not_found: ".to_owned().concat(name)),
        RemoveAction::Deleted => None,
    }
}

/// The receipt of `wtx rm --json`.
pub fn remove_receipt(name: &str, action: RemoveAction) -> (r: Json)
    ensures
        r@ == JsonView::Obj(
            seq![
                ("schema_version"@, JsonView::Num(RECEIPT_SCHEMA_VERSION as int)),
                ("action"@, JsonView::Str(action_text(action))),
                ("name"@, JsonView::Str(name@)),
            ],
        ),
{
    let word: &str = match action {
        RemoveAction::Deleted => "deleted",
        RemoveAction::NotFound => "not_found",
    };
    let mut m: Vec<(String, Json)> = json::no_members();
    json::member(&mut m, "schema_version", Json::Num(RECEIPT_SCHEMA_VERSION as i64));
    json::member(&mut m, "action", json::string(word));
    json::member(&mut m, "name", json::string(name));
    assert(json::members(m@) =~= seq![
        ("schema_version"@, JsonView::Num(RECEIPT_SCHEMA_VERSION as int)),
        ("action"@, JsonView::Str(action_text(action))),
        ("name"@, JsonView::Str(name@)),
    ]);
    json::object(m)
}

/// `wtx rm`: decide about a removal, with what it reports where it succeeds without `--json`.
pub fn rm(f: &RemoveFacts, opts: RemoveOpts) -> (r: Result<(Removal, Option<String>), String>)
    ensures
        if !f.vm_exists && f.meta is None {
            if opts.if_exists {
                r matches Ok(x) && {
                    &&& x.0.action == RemoveAction::NotFound
                    &&& plan::steps(x.0.steps@) == Seq::<StepView>::empty()
                    &&& lima::opt_text(x.1) == Some("not_found: "@ + f.name@)
                }
            } else {
                r matches Err(e) && e@ == "no such wtx VM: "@ + f.name@
            }
        } else {
            r matches Ok(x) && {
                &&& x.0.action == RemoveAction::Deleted
                &&& plan::steps(x.0.steps@) == deleting(*f, opts)
                &&& x.1 is None
            }
        },
{
    match remove_instance(f, opts) {
        Ok(x) => {
            let line: Option<String> = remove_report(f.name, x.action);
            Ok((x, line))
        },
        Err(e) => Err(e),
    }
}

/// The position of the step that deletes the instance itself.
pub open spec fn deletion_at(f: RemoveFacts, opts: RemoveOpts) -> int {
    let meta = lima::opt_meta_ref(f.meta);
    let refs: int = match meta {
        Some(m) => if m.main_repo.len() == 0 {
            0
        } else {
            gitiso::unpinning(m.main_repo, text::words(f.keep_refs@)).len() as int
        },
        None => 0,
    };
    let device: int = match meta {
        Some(m) => sim::deleting(m.sim_udid, opts.json).len() as int,
        None => 0,
    };
    refs + sshx::closing_all(f.name@, text::texts(f.files@)).len() + device
}

/// The record of a VM outlives the VM: where the instance cannot be deleted, the removal fails
/// before it comes to the record and to the worktree, and can be tried again.
pub proof fn lemma_record_outlives_the_vm(
    f: RemoveFacts,
    opts: RemoveOpts,
    errors: Seq<Option<Seq<char>>>,
)
    requires
        f.vm_exists,
        plan::possible(deleting(f, opts), errors),
        errors[deletion_at(f, opts)] is Some,
    ensures
        deleting(f, opts)[deletion_at(f, opts) + 2] == removing_file(
            lima::record_path(f.home@, f.name@),
        ),
        plan::performed(deleting(f, opts), errors) <= deletion_at(f, opts) + 1,
        plan::outcome(deleting(f, opts), errors) is Err,
{
    plan::lemma_plan_ends_at(deleting(f, opts), errors, deletion_at(f, opts));
}

/// A removal takes everything of the VM along: its pinning refs if it has a repository, all its
/// forwards, its device, the instance itself if there is one, its configuration and its record, in
/// this order; the worktree goes only where that was asked for, and last.
pub proof fn lemma_removal_takes_everything_along(f: RemoveFacts, opts: RemoveOpts)
    ensures
        ({
            let s = deleting(f, opts);
            let meta = lima::opt_meta_ref(f.meta);
            let a = match meta {
                Some(m) => if m.main_repo.len() > 0 {
                    gitiso::unpinning(m.main_repo, text::words(f.keep_refs@)).len() as int
                } else {
                    0
                },
                None => 0,
            };
            let b = a + sshx::closing_all(f.name@, text::texts(f.files@)).len();
            let c = b + match meta {
                Some(m) => sim::deleting(m.sim_udid, opts.json).len() as int,
                None => 0,
            };
            let d = c + (if f.vm_exists {
                1int
            } else {
                0
            });
            &&& a <= b <= c <= d && d + 2 <= s.len()
            &&& a > 0 ==> s.subrange(0, a) == gitiso::unpinning(
                meta->0.main_repo,
                text::words(f.keep_refs@),
            )
            &&& s.subrange(a, b) == sshx::closing_all(f.name@, text::texts(f.files@))
            &&& b < c ==> s.subrange(b, c) == sim::deleting(meta->0.sim_udid, opts.json)
            &&& f.vm_exists ==> s[c].verb == Verb::LimactlCapture && s[c].args == seq![
                "delete"@,
                "-f"@,
                f.name@,
            ] && s[c].on_fail == OnFail::AbortAs
            &&& s[d].verb == Verb::RemoveManaged && s[d].args == seq![
                lima::yaml_path_of(f.home@, f.name@),
            ]
            &&& s[d + 1].verb == Verb::RemoveManaged && s[d + 1].args == seq![
                lima::record_path(f.home@, f.name@),
            ]
            &&& !opts.with_worktree ==> s.len() == d + 2
            &&& opts.with_worktree ==> s.subrange(d + 2, s.len() as int) == removing_worktree(
                f.name@,
                meta,
                f.workdir_exists,
                opts.json,
            )
        }),
{
    let s = deleting(f, opts);
    let meta = lima::opt_meta_ref(f.meta);
    let refs = match meta {
        Some(m) => if m.main_repo.len() == 0 {
            Seq::<StepView>::empty()
        } else {
            gitiso::unpinning(m.main_repo, text::words(f.keep_refs@))
        },
        None => Seq::empty(),
    };
    let forwards = sshx::closing_all(f.name@, text::texts(f.files@));
    let device = match meta {
        Some(m) => sim::deleting(m.sim_udid, opts.json),
        None => Seq::empty(),
    };
    let a = refs.len() as int;
    let b = a + forwards.len();
    let c = b + device.len();
    assert(s.subrange(0, a) =~= refs);
    assert(s.subrange(a, b) =~= forwards);
    assert(s.subrange(b, c) =~= device);
    let d = c + (if f.vm_exists {
        1int
    } else {
        0
    });
    if opts.with_worktree {
        assert(s.subrange(d + 2, s.len() as int) =~= removing_worktree(
            f.name@,
            meta,
            f.workdir_exists,
            opts.json,
        ));
    }
}

/// The directory of a linked worktree that is there is removed through its repository; a failure is
/// told and no more.
pub proof fn lemma_linked_worktree_is_removed(name: Seq<char>, m: MetaView, quiet: bool)
    requires
        m.main_repo.len() > 0,
        m.main_repo != m.workdir,
    ensures
        ({
            let s = removing_worktree(name, Some(m), true, quiet);
            &&& s.len() == 1
            &&& s[0].verb == Verb::GitShown && s[0].on_fail == OnFail::WarnWith
            &&& s[0].args == seq![m.main_repo, "worktree"@, "remove"@, "--force"@, m.workdir]
        }),
        removing_worktree(name, Some(m), false, quiet).len() == 1,
        removing_worktree(name, Some(m), false, quiet)[0].verb == Verb::Complain,
{
}

/// An ordinary repository is never removed: only the directory of a linked worktree is, and only
/// with `--with-worktree`.
pub proof fn lemma_repository_is_kept(
    name: Seq<char>,
    meta: MetaView,
    workdir_exists: bool,
    quiet: bool,
    i: int,
)
    requires
        !is_linked_worktree(meta),
        0 <= i < removing_worktree(name, Some(meta), workdir_exists, quiet).len(),
    ensures
        removing_worktree(name, Some(meta), workdir_exists, quiet)[i].verb == Verb::Complain,
{
}

/// The orphaned VMs of a listing that are, or are not, among the given ones.
pub open spec fn orphans_where(
    rows: Seq<InstanceView>,
    legacy: Seq<Seq<char>>,
    among: bool,
) -> Seq<InstanceView>
    decreases rows.len(),
{
    if rows.len() == 0 {
        rows
    } else if rows.last().orphaned && legacy.contains(rows.last().name) == among {
        orphans_where(rows.drop_last(), legacy, among).push(rows.last())
    } else {
        orphans_where(rows.drop_last(), legacy, among)
    }
}

/// Every orphaned VM of the listing is in one of the two lists, in the order of the listing: among
/// those left alone if it has a git directory of its own, and else among those to be deleted. No
/// VM that is not orphaned is in either.
pub proof fn lemma_every_orphan_is_pruned(rows: Seq<InstanceView>, legacy: Seq<Seq<char>>)
    ensures
        prunable(rows, legacy) == rows.filter(
            |x: InstanceView| x.orphaned && !legacy.contains(x.name),
        ),
        held_back(rows, legacy) == rows.filter(
            |x: InstanceView| x.orphaned && legacy.contains(x.name),
        ),
    decreases rows.len(),
{
    reveal(Seq::filter);
    if rows.len() > 0 {
        lemma_every_orphan_is_pruned(rows.drop_last(), legacy);
    }
}

/// The orphaned VMs that may be deleted without looking into them.
pub open spec fn prunable(rows: Seq<InstanceView>, legacy: Seq<Seq<char>>) -> Seq<InstanceView> {
    orphans_where(rows, legacy, false)
}

/// The orphaned VMs that are left alone: they have a git directory of their own, and commits may
/// exist only inside them.
pub open spec fn held_back(rows: Seq<InstanceView>, legacy: Seq<Seq<char>>) -> Seq<InstanceView> {
    orphans_where(rows, legacy, true)
}

fn select_orphans(rows: &Vec<Instance>, legacy: &Vec<String>, among: bool) -> (r: Vec<Instance>)
    ensures
        inspect::instances(r@) == orphans_where(
            inspect::instances(rows@),
            text::texts(legacy@),
            among,
        ),
{
    let ghost t = inspect::instances(rows@);
    let ghost l = text::texts(legacy@);
    let mut out: Vec<Instance> = Vec::new();
    let mut i: usize = 0;
    assert(inspect::instances(out@) =~= orphans_where(t.take(0), l, among));
    while i < rows.len()
        invariant
            i <= rows@.len(),
            t == inspect::instances(rows@),
            l == text::texts(legacy@),
            inspect::instances(out@) == orphans_where(t.take(i as int), l, among),
        decreases rows@.len() - i,
    {
        assert(t.take(i + 1).drop_last() =~= t.take(i as int));
        assert(t.take(i + 1).last() == t[i as int]);
        if rows[i].orphaned && text::list_contains(legacy, rows[i].name.as_str()) == among {
            let ghost before = inspect::instances(out@);
            let x: Instance = rows[i].clone();
            let ghost xv = x@;
            out.push(x);
            assert(inspect::instances(out@) =~= before.push(xv));
        }
        i += 1;
    }
    assert(t.take(i as int) =~= t);
    out
}

/// The VMs that `wtx prune` deletes: those whose working directory is gone, but for the ones with
/// a git directory of their own, which `legacy` names.
pub fn prune(rows: &Vec<Instance>, legacy: &Vec<String>) -> (r: Vec<Instance>)
    ensures
        inspect::instances(r@) == prunable(inspect::instances(rows@), text::texts(legacy@)),
{
    select_orphans(rows, legacy, false)
}

/// The orphaned VMs that `wtx prune` leaves alone.
pub fn not_pruned(rows: &Vec<Instance>, legacy: &Vec<String>) -> (r: Vec<Instance>)
    ensures
        inspect::instances(r@) == held_back(inspect::instances(rows@), text::texts(legacy@)),
{
    select_orphans(rows, legacy, true)
}

proof fn lemma_orphans_where(
    rows: Seq<InstanceView>,
    legacy: Seq<Seq<char>>,
    among: bool,
    x: InstanceView,
)
    ensures
        orphans_where(rows, legacy, among).contains(x) == (rows.contains(x) && x.orphaned
            && legacy.contains(x.name) == among),
    decreases rows.len(),
{
    if rows.len() > 0 {
        let f = rows.drop_last();
        lemma_orphans_where(f, legacy, among, x);
        assert(rows =~= f.push(rows.last()));
        let before = orphans_where(f, legacy, among);
        assert(f.push(rows.last()).contains(x) == (f.contains(x) || x == rows.last())) by {
            if f.contains(x) {
                let i = choose|i: int| 0 <= i < f.len() && f[i] == x;
                assert(rows[i] == x);
            }
            assert(rows[rows.len() - 1] == rows.last());
        }
        assert(before.push(rows.last()).contains(x) == (before.contains(x) || x == rows.last())) by {
            let all = before.push(rows.last());
            if before.contains(x) {
                let i = choose|i: int| 0 <= i < before.len() && before[i] == x;
                assert(all[i] == x);
            }
            assert(all[before.len() as int] == rows.last());
        }
    }
}

/// A VM is pruned exactly if its working directory is gone and its commits are on the host: one
/// with a git directory of its own is held back, and one whose working directory exists is not
/// touched at all.
pub proof fn lemma_prune_is_safe(
    rows: Seq<InstanceView>,
    legacy: Seq<Seq<char>>,
    x: InstanceView,
)
    requires
        rows.contains(x),
    ensures
        prunable(rows, legacy).contains(x) == (x.orphaned && !legacy.contains(x.name)),
        held_back(rows, legacy).contains(x) == (x.orphaned && legacy.contains(x.name)),
{
    lemma_orphans_where(rows, legacy, false, x);
    lemma_orphans_where(rows, legacy, true, x);
}

/// The line of `wtx prune` for a VM that is left alone.
pub open spec fn skip_text(name: Seq<char>) -> Seq<char> {
    "  skipped "@ + name + ": "@ + inspect::LEGACY_GIT@ + "; inspect it, then `wtx rm "@ + name
        + "`"@
}

pub fn skip_line(x: &Instance) -> (r: String)
    ensures
        r@ == skip_text(x@.name),
{
    let name: &str = x.name.as_str();
    "  skipped ".to_owned().concat(name).concat(": ").concat(inspect::LEGACY_GIT).concat(
        "; inspect it, then `wtx rm ",
    ).concat(name).concat("`")
}

/// Each VM that would be deleted has its line, with its own directory, and so has each that is left
/// alone, in their order; how to delete them is told only if there are any.
pub proof fn lemma_preview_lists_them_all(
    rows: Seq<InstanceView>,
    skipped: Seq<InstanceView>,
    i: int,
)
    ensures
        rows.len() + skipped.len() > 0 ==> preview(rows, skipped).len() == rows.len()
            + skipped.len() + (if rows.len() > 0 {
            1int
        } else {
            0
        }),
        0 <= i < rows.len() ==> preview(rows, skipped)[i] == "  would delete "@ + rows[i].name
            + " (workdir gone: "@ + rows[i].workdir + ")"@,
        0 <= i < skipped.len() ==> text::has_prefix(
            preview(rows, skipped)[rows.len() + i],
            "  skipped "@ + skipped[i].name + ": "@,
        ) && skip_lines(skipped)[i] == preview(rows, skipped)[rows.len() + i],
        skip_lines(skipped).len() == skipped.len(),
        rows.len() > 0 ==> preview(rows, skipped).last() == "re-run with --yes to delete them"@,
{
    if 0 <= i < skipped.len() {
        let l = preview(rows, skipped)[rows.len() + i];
        assert(l == skip_lines(skipped)[i]);
        let p = "  skipped "@ + skipped[i].name + ": "@;
        assert(l.take(p.len() as int) =~= p);
    }
}

/// The line of `wtx prune` without `--yes`.
pub fn would_delete(x: &Instance) -> (r: String)
    ensures
        r@ == "  would delete "@ + x@.name + " (workdir gone: "@ + x@.workdir + ")"@,
{
    "  would delete ".to_owned().concat(x.name.as_str()).concat(" (workdir gone: ").concat(
        x.workdir.as_str(),
    ).concat(")")
}

pub open spec fn skip_lines(skipped: Seq<InstanceView>) -> Seq<Seq<char>> {
    Seq::new(skipped.len(), |i: int| skip_text(skipped[i].name))
}

/// The lines of `wtx prune` for the VMs that are left alone.
pub fn skip_report(skipped: &Vec<Instance>) -> (r: Vec<String>)
    ensures
        text::texts(r@) == skip_lines(inspect::instances(skipped@)),
{
    let ghost all = skip_lines(inspect::instances(skipped@));
    let mut out: Vec<String> = Vec::new();
    let mut i: usize = 0;
    assert(text::texts(out@) =~= all.take(0));
    while i < skipped.len()
        invariant
            i <= skipped@.len(),
            all == skip_lines(inspect::instances(skipped@)),
            text::texts(out@) == all.take(i as int),
        decreases skipped@.len() - i,
    {
        text::push_string(&mut out, skip_line(&skipped[i]));
        assert(all.take(i + 1) =~= all.take(i as int).push(all[i as int]));
        i += 1;
    }
    assert(all.take(i as int) =~= all);
    out
}

pub open spec fn would_delete_lines(rows: Seq<InstanceView>) -> Seq<Seq<char>> {
    Seq::new(
        rows.len(),
        |i: int|
            "  would delete "@ + rows[i].name + " (workdir gone: "@ + rows[i].workdir + ")"@,
    )
}

/// The lines of `wtx prune` without `--yes`, for the VMs that it would delete and those that it
/// would leave alone.
pub open spec fn preview(rows: Seq<InstanceView>, skipped: Seq<InstanceView>) -> Seq<Seq<char>> {
    if rows.len() == 0 && skipped.len() == 0 {
        seq!["no orphaned VMs"@]
    } else {
        would_delete_lines(rows) + skip_lines(skipped) + (if rows.len() == 0 {
            Seq::empty()
        } else {
            seq!["re-run with --yes to delete them"@]
        })
    }
}

pub fn prune_preview(orphans: &Vec<Instance>, skipped: &Vec<Instance>) -> (r: Vec<String>)
    ensures
        text::texts(r@) == preview(inspect::instances(orphans@), inspect::instances(skipped@)),
{
    let ghost t = inspect::instances(orphans@);
    let ghost s = inspect::instances(skipped@);
    if orphans.len() == 0 && skipped.len() == 0 {
        assert(t.len() == 0 && s.len() == 0);
        return plan::args1("no orphaned VMs");
    }
    assert(t.len() > 0 || s.len() > 0);
    let ghost all = would_delete_lines(t);
    let mut out: Vec<String> = Vec::new();
    let mut i: usize = 0;
    assert(text::texts(out@) =~= all.take(0));
    while i < orphans.len()
        invariant
            i <= orphans@.len(),
            t == inspect::instances(orphans@),
            all == would_delete_lines(t),
            text::texts(out@) == all.take(i as int),
        decreases orphans@.len() - i,
    {
        text::push_string(&mut out, would_delete(&orphans[i]));
        assert(all.take(i + 1) =~= all.take(i as int).push(all[i as int]));
        i += 1;
    }
    assert(all.take(i as int) =~= all);
    let mut rest: Vec<String> = skip_report(skipped);
    let ghost rv = rest@;
    out.append(&mut rest);
    assert(text::texts(out@) =~= all + text::texts(rv));
    if orphans.len() > 0 {
        text::push_text(&mut out, "re-run with --yes to delete them");
    }
    assert(text::texts(out@) =~= preview(t, s));
    out
}

/// The line of `wtx prune --yes` for a VM, given the error of its removal if there was one.
pub fn pruned(name: &str, error: Option<&str>) -> (r: String)
    ensures
        r@ == match error {
            None => "  deleted "@ + name@,
            Some(e) => "  failed to delete "@ + name@ + ": "@ + e@,
        },
{
    match error {
        None => "  deleted ".to_owned().concat(name),
        Some(e) => "  failed to delete ".to_owned().concat(name).concat(": ").concat(e),
    }
}

} // verus!
