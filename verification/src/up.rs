//! `wtx up`: what it says, refuses and does, from the facts about the host.
use vstd::prelude::*;

use crate::creds;
use crate::lima::{
    self, InstanceMeta, MetaView, Mount, Provision, ProvisionPath, UpOpts, UpView,
};
use crate::mirror::{self, EntryView, MirrorEntry};
use crate::path;
use crate::plan::{self, OnFail, Step, StepView, Verb};
use crate::repo::{self, DotGit, DotGitView, RepoInfo, RepoView};
use crate::text;
use crate::util;

verus! {

/// What has to be known before a VM is prepared.
pub struct UpFacts<'a> {
    pub home: &'a str,
    pub name: &'a str,
    /// The working directory, with its links resolved.
    pub workdir: &'a str,
    pub is_dir: bool,
    pub mirror_alive: bool,
    /// What stands at `.git` in the working directory.
    pub dot: &'a DotGit,
    /// Why it could not be read.
    pub dot_error: Option<&'a str>,
    /// The `HEAD` of its git directory.
    pub head: Option<&'a str>,
    /// The coding agent whose directory may be shared.
    pub agent: &'a str,
    pub agent_dir_exists: bool,
    /// The requested mounts with their real locations, up to one that has none.
    pub extra: &'a Vec<Mount>,
    /// Why a requested mount has no real location.
    pub mount_error: Option<&'a str>,
    pub mirror_port: u16,
    /// The VM's status; empty if it does not exist.
    pub status: &'a str,
    /// The text of the VM's record.
    pub raw: Option<&'a str>,
    pub previous: Option<&'a InstanceMeta>,
    /// The status and the record of the VM that `--from` names.
    pub src_status: &'a str,
    pub src_meta: Option<&'a InstanceMeta>,
    pub quiet: bool,
}

pub struct FactsView {
    pub home: Seq<char>,
    pub name: Seq<char>,
    pub workdir: Seq<char>,
    pub is_dir: bool,
    pub mirror_alive: bool,
    pub dot: DotGitView,
    pub dot_error: Option<Seq<char>>,
    pub head: Option<Seq<char>>,
    pub agent: Seq<char>,
    pub agent_dir_exists: bool,
    pub extra: Seq<(Seq<char>, bool)>,
    pub mount_error: Option<Seq<char>>,
    pub mirror_port: u16,
    pub status: Seq<char>,
    pub raw: Option<Seq<char>>,
    pub previous: Option<MetaView>,
    pub src_status: Seq<char>,
    pub src_meta: Option<MetaView>,
    pub quiet: bool,
}

impl<'a> View for UpFacts<'a> {
    type V = FactsView;

    open spec fn view(&self) -> FactsView {
        FactsView {
            home: self.home@,
            name: self.name@,
            workdir: self.workdir@,
            is_dir: self.is_dir,
            mirror_alive: self.mirror_alive,
            dot: self.dot@,
            dot_error: util::opt_view(self.dot_error),
            head: util::opt_view(self.head),
            agent: self.agent@,
            agent_dir_exists: self.agent_dir_exists,
            extra: lima::mounts_view(self.extra@),
            mount_error: util::opt_view(self.mount_error),
            mirror_port: self.mirror_port,
            status: self.status@,
            raw: util::opt_view(self.raw),
            previous: lima::opt_meta_ref(self.previous),
            src_status: self.src_status@,
            src_meta: lima::opt_meta_ref(self.src_meta),
            quiet: self.quiet,
        }
    }
}

/// What `wtx up` does up to a VM that runs.
pub struct UpPlan {
    /// What comes before the VM is touched; it ends with a failure if the VM is refused.
    pub before: Vec<Step>,
    pub repo: Option<RepoInfo>,
    /// How the VM comes to be; `None` if it is refused.
    pub provision: Option<Provision>,
}

pub struct UpPlanView {
    pub before: Seq<StepView>,
    pub repo: Option<RepoView>,
    pub provision: Option<(ProvisionPath, Seq<StepView>)>,
}

impl View for UpPlan {
    type V = UpPlanView;

    open spec fn view(&self) -> UpPlanView {
        UpPlanView {
            before: plan::steps(self.before@),
            repo: match self.repo {
                Some(r) => Some(r@),
                None => None,
            },
            provision: match self.provision {
                Some(p) => Some((p.path, plan::steps(p.steps@))),
                None => None,
            },
        }
    }
}

pub open spec fn mirror_notice(alive: bool) -> Seq<StepView> {
    if alive {
        Seq::empty()
    } else {
        seq![
            plan::complains(
                "wtx: warning: mirror is down - pulls go straight upstream (wtx mirror up)"@,
            ),
        ]
    }
}

pub open spec fn complaints(lines: Seq<Seq<char>>) -> Seq<StepView> {
    Seq::new(lines.len(), |i: int| plan::complains(lines[i]))
}

pub open spec fn agent_home_of(f: FactsView) -> Seq<char> {
    path::below(f.home, creds::agent_dir(f.agent))
}

pub open spec fn auto_mounts(f: FactsView, o: UpView, r: Option<RepoView>) -> Seq<
    (Seq<char>, bool),
> {
    lima::automatic_mounts(f.workdir, r, o.agent_access, agent_home_of(f), f.agent_dir_exists)
}

pub open spec fn mount_warnings(f: FactsView, o: UpView, r: Option<RepoView>) -> Seq<Seq<char>> {
    lima::claude_warning(o.agent_access, agent_home_of(f), f.agent_dir_exists)
        + lima::ignored_mounts(auto_mounts(f, o, r), f.extra)
}

/// The configuration of the VM is written whether or not the VM exists.
pub open spec fn config_step(f: FactsView, o: UpView, r: Option<RepoView>) -> StepView {
    plan::does(
        Verb::Write,
        seq![
            lima::yaml_path_of(f.home, f.name),
            lima::configuration(
                lima::with_extra(auto_mounts(f, o, r), f.extra),
                match o.cpus {
                    Some(n) => n,
                    None => 2,
                },
                match o.memory {
                    Some(m) => m,
                    None => "4GiB"@,
                },
                o.disk,
                o.agent_access,
                f.mirror_port,
            ),
        ],
    )
}

pub open spec fn existed(f: FactsView) -> bool {
    f.status.len() != 0
}

pub open spec fn policy_notice(f: FactsView) -> Seq<StepView> {
    if existed(f) && lima::lacks_policy(lima::record_text(f.raw)) {
        seq![
            plan::complains(
                "wtx: warning: "@ + f.name
                    + " predates explicit credential policy and may still share host credentials; recreate it"@,
            ),
        ]
    } else {
        Seq::empty()
    }
}

pub open spec fn had_access(f: FactsView) -> bool {
    match f.previous {
        Some(m) => m.agent_access,
        None => false,
    }
}

/// The warnings about the mirror and the mounts.
pub open spec fn notices(f: FactsView, o: UpView, r: Option<RepoView>) -> Seq<StepView> {
    mirror_notice(f.mirror_alive) + complaints(mount_warnings(f, o, r))
}

/// What comes before the decision about the VM.
pub open spec fn prelude(f: FactsView, o: UpView, r: Option<RepoView>) -> Seq<StepView> {
    notices(f, o, r) + seq![config_step(f, o, r)] + policy_notice(f)
}

pub open spec fn provisioning_of(f: FactsView, o: UpView, r: Option<RepoView>) -> Result<
    (ProvisionPath, Seq<StepView>),
    Seq<char>,
> {
    lima::provisioning(
        f.name,
        o,
        lima::with_extra(auto_mounts(f, o, r), f.extra),
        lima::yaml_path_of(f.home, f.name),
        f.status,
        f.quiet,
        f.src_status,
        f.src_meta,
    )
}

pub open spec fn refused(before: Seq<StepView>, message: Seq<char>) -> UpPlanView {
    UpPlanView { before: before.push(plan::fails(message)), repo: None, provision: None }
}

/// What stands in the working directory: no repository, a repository, or an error.
pub open spec fn found(f: FactsView) -> Result<Option<RepoView>, Seq<char>> {
    match f.dot_error {
        Some(e) => Err(e),
        None => match repo::inspection(f.workdir, f.dot, f.head) {
            Err(fault) => Err(repo::fault_text(fault, f.workdir)),
            Ok(r) => Ok(r),
        },
    }
}

/// The plan of `wtx up`. It refuses what is no directory, a broken `.git`, a mount that does not
/// exist, agent access for a VM that was created without it, and what cannot be provisioned.
pub open spec fn upping(f: FactsView, o: UpView) -> UpPlanView {
    if !f.is_dir {
        refused(Seq::empty(), "workdir not found: "@ + f.workdir)
    } else {
        match found(f) {
            Err(e) => refused(mirror_notice(f.mirror_alive), e),
            Ok(r) => if f.mount_error is Some {
                refused(notices(f, o, r), f.mount_error->0)
            } else if !lima::policy_allows(existed(f), o.agent_access, had_access(f)) {
                refused(prelude(f, o, r), f.name + ": "@ + lima::POLICY_REFUSED@)
            } else {
                match provisioning_of(f, o, r) {
                    Err(e) => refused(prelude(f, o, r), e),
                    Ok(p) => UpPlanView {
                        before: prelude(f, o, r),
                        repo: r,
                        provision: Some(p),
                    },
                }
            },
        }
    }
}

fn complain_all(p: &mut Vec<Step>, lines: &Vec<String>)
    ensures
        plan::steps(final(p)@) == plan::steps(old(p)@) + complaints(text::texts(lines@)),
{
    let ghost start = plan::steps(p@);
    let ghost all = complaints(text::texts(lines@));
    let mut i: usize = 0;
    assert(start + all.take(0) =~= start);
    while i < lines.len()
        invariant
            i <= lines@.len(),
            all == complaints(text::texts(lines@)),
            plan::steps(p@) == start + all.take(i as int),
        decreases lines@.len() - i,
    {
        plan::push(p, plan::complain(lines[i].as_str()));
        assert(all.take(i + 1) =~= all.take(i as int).push(all[i as int]));
        assert(start + all.take(i + 1) =~= (start + all.take(i as int)).push(all[i as int]));
        i += 1;
    }
    assert(all.take(i as int) =~= all);
}

fn refuse(before: Vec<Step>, message: &str) -> (r: UpPlan)
    ensures
        r@ == refused(plan::steps(before@), message@),
{
    let mut p: Vec<Step> = before;
    plan::push(&mut p, plan::fail(message));
    UpPlan { before: p, repo: None, provision: None }
}

/// Plan `wtx up`. The shared base VM is prepared between the two parts of the plan where the VM
/// is cloned from it, and the volumes of a seeded VM are renamed afterwards.
pub fn up_inner(f: &UpFacts, o: &UpOpts) -> (r: UpPlan)
    ensures
        r@ == upping(f@, o@),
{
    let ghost v = f@;
    let mut p: Vec<Step> = plan::nothing();
    if !f.is_dir {
        let m: String = lima::workdir_missing(f.workdir);
        return refuse(p, m.as_str());
    }
    if !f.mirror_alive {
        plan::push(
            &mut p,
            plan::complain(
                "wtx: warning: mirror is down - pulls go straight upstream (wtx mirror up)",
            ),
        );
    }
    assert(plan::steps(p@) =~= mirror_notice(v.mirror_alive));
    match f.dot_error {
        Some(e) => {
            return refuse(p, e);
        },
        None => {},
    }
    let found: Option<RepoInfo> = match repo::inspect_repo(f.workdir, f.dot, f.head) {
        Ok(x) => x,
        Err(fault) => {
            let m: String = fault.message(f.workdir);
            return refuse(p, m.as_str());
        },
    };
    let info: Option<&RepoInfo> = match &found {
        Some(x) => Some(x),
        None => None,
    };
    let ghost rv = lima::opt_repo(info);
    let agent_home: String = creds::agent_home(f.home, f.agent);
    let (mounts, warnings) = lima::collect_mounts(
        f.workdir,
        info,
        o.agent_access,
        agent_home.as_str(),
        f.agent_dir_exists,
        f.extra,
    );
    complain_all(&mut p, &warnings);
    match f.mount_error {
        Some(e) => {
            return refuse(p, e);
        },
        None => {},
    }
    let yaml: String = lima::yaml_path(f.home, f.name);
    let cpus: u32 = match o.cpus {
        Some(n) => n,
        None => 2,
    };
    let memory: &str = match &o.memory {
        Some(m) => m.as_str(),
        None => "4GiB",
    };
    let config: String = lima::render_yaml(
        &mounts,
        cpus,
        memory,
        o.disk.as_str(),
        o.agent_access,
        f.mirror_port,
    );
    let write: Step = plan::must(Verb::Write, plan::args2(yaml.as_str(), config.as_str()));
    assert(write@.args =~= config_step(v, o@, rv).args);
    plan::push(&mut p, write);
    let exists: bool = !f.status.is_empty();
    match lima::warn_legacy_agent_policy(f.name, exists, f.raw) {
        Some(w) => {
            plan::push(&mut p, plan::complain(w.as_str()));
        },
        None => {},
    }
    assert(plan::steps(p@) =~= prelude(v, o@, rv));
    let previous: bool = match f.previous {
        Some(m) => m.agent_access,
        None => false,
    };
    match lima::validate_agent_access(exists, o.agent_access, previous) {
        Ok(_) => {},
        Err(e) => {
            let m: String = f.name.to_owned().concat(": ").concat(e.as_str());
            return refuse(p, m.as_str());
        },
    }
    match lima::provision_instance(
        f.name,
        o,
        &mounts,
        yaml.as_str(),
        f.status,
        f.quiet,
        f.src_status,
        f.src_meta,
    ) {
        Err(e) => refuse(p, e.as_str()),
        Ok(x) => UpPlan { before: p, repo: found, provision: Some(x) },
    }
}

/// Whether a step touches a VM.
pub open spec fn touches_vm(s: StepView) -> bool {
    match s.verb {
        Verb::Limactl => true,
        Verb::LimactlCapture => true,
        Verb::LimactlSpawn => true,
        Verb::Script => true,
        Verb::ScriptQuiet => true,
        Verb::Ssh => true,
        Verb::SshQuiet => true,
        _ => false,
    }
}

/// A refused `wtx up` fails and touches no VM; nor does anything touch a VM before the decision
/// about it.
pub proof fn lemma_refusal_touches_no_vm(f: FactsView, o: UpView)
    ensures
        forall|i: int|
            0 <= i < upping(f, o).before.len() ==> !touches_vm(#[trigger] upping(f, o).before[i]),
        upping(f, o).provision is None ==> forall|errors: Seq<Option<Seq<char>>>|
            plan::possible(upping(f, o).before, errors) ==> #[trigger] plan::outcome(
                upping(f, o).before,
                errors,
            ) is Err,
{
    if upping(f, o).provision is None {
        let p = upping(f, o).before;
        assert forall|errors: Seq<Option<Seq<char>>>| plan::possible(p, errors) implies (
        #[trigger] plan::outcome(p, errors)) is Err by {
            assert(p[p.len() - 1].verb == Verb::Fail);
            plan::lemma_plan_ends_at(p, errors, p.len() - 1);
        }
    }
    match found(f) {
        Ok(r) => {
            let c = complaints(mount_warnings(f, o, r));
            assert forall|i: int| 0 <= i < prelude(f, o, r).len() implies !touches_vm(
                #[trigger] prelude(f, o, r)[i],
            ) by {
                let m = mirror_notice(f.mirror_alive);
                if m.len() <= i < m.len() + c.len() {
                    assert(prelude(f, o, r)[i] == c[i - m.len()]);
                }
            }
        },
        Err(_) => {},
    }
}

/// Whether a step writes the configuration of a VM with the given mounts and with what was asked
/// for: two CPUs and 4 GiB where nothing else was.
pub open spec fn writes_configuration(
    s: StepView,
    f: FactsView,
    o: UpView,
    ms: Seq<(Seq<char>, bool)>,
) -> bool {
    let cpus: u32 = if o.cpus is Some {
        o.cpus->0
    } else {
        2
    };
    let memory = if o.memory is Some {
        o.memory->0
    } else {
        "4GiB"@
    };
    &&& s.verb == Verb::Write && s.on_fail == OnFail::Abort
    &&& s.args.len() == 2
    &&& s.args[0] == lima::yaml_path_of(f.home, f.name)
    &&& s.args[1] == lima::configuration(
        ms,
        cpus,
        memory,
        o.disk,
        o.agent_access,
        f.mirror_port,
    )
}

/// A VM is brought up only for a directory, with a `.git` that can be read and mounts that exist, and
/// where the agent policy and the provisioning allow it; then nothing but warnings and its
/// configuration precede it, and of each ignored mount the user is told.
pub proof fn lemma_up_needs_its_facts(f: FactsView, o: UpView)
    ensures
        !f.is_dir || f.dot_error is Some || f.mount_error is Some ==> upping(f, o).provision is None,
        f.is_dir && f.dot_error is None && f.mount_error is None ==> {
            match repo::inspection(f.workdir, f.dot, f.head) {
                Err(_) => upping(f, o).provision is None,
                Ok(r) => {
                    let ms = lima::with_extra(
                        lima::automatic_mounts(
                            f.workdir,
                            r,
                            o.agent_access,
                            path::below(f.home, "."@ + f.agent),
                            f.agent_dir_exists,
                        ),
                        f.extra,
                    );
                    let p = lima::provisioning(
                        f.name,
                        o,
                        ms,
                        lima::yaml_path_of(f.home, f.name),
                        f.status,
                        f.quiet,
                        f.src_status,
                        f.src_meta,
                    );
                    let denied = f.status.len() > 0 && o.agent_access && !(f.previous matches Some(
                        m,
                    ) && m.agent_access);
                    &&& denied || p is Err ==> upping(f, o).provision is None
                    &&& !denied && p is Ok ==> upping(f, o).provision == Some(p->Ok_0) && upping(
                        f,
                        o,
                    ).repo == r && exists|i: int|
                        0 <= i < upping(f, o).before.len() && writes_configuration(
                            #[trigger] upping(f, o).before[i],
                            f,
                            o,
                            ms,
                        )
                },
            }
        },
{
    match found(f) {
        Ok(r) => {
            let b = prelude(f, o, r);
            let n = notices(f, o, r).len() as int;
            assert(b[n] == config_step(f, o, r));
            let ms = lima::with_extra(auto_mounts(f, o, r), f.extra);
            assert(writes_configuration(b[n], f, o, ms));
            if upping(f, o).provision is Some {
                assert(upping(f, o).before == b);
            }
        },
        Err(_) => {},
    }
}

/// Once a VM runs it gets the mirrors, the host's git identity and, where it has access to it and
/// the host has one, the agent's directory, in this order.
pub proof fn lemma_after_start(
    f: FactsView,
    m: MetaView,
    mirrors: Seq<EntryView>,
    git_name: Seq<char>,
    git_email: Seq<char>,
)
    ensures
        ({
            let s = after_start(f, m, mirrors, git_name, git_email);
            &&& s[0].verb == Verb::Script && s[0].on_fail == OnFail::Warn
            &&& s[0].args == seq![f.name, mirror::host_files(mirrors)]
            &&& f.quiet ==> s[1].verb == Verb::ScriptQuiet
            &&& !f.quiet ==> s[1].verb == Verb::Script
            &&& s[1].on_fail == OnFail::Abort
            &&& s[1].args == seq![
                f.name,
                "set -eu\ngit config --global --replace-all user.name "@ + util::quoted(git_name)
                    + "\ngit config --global --replace-all user.email "@ + util::quoted(git_email)
                    + "\n"@,
            ]
            &&& m.agent_access && f.agent_dir_exists ==> s.len() == 3 && s[2].args.len() == 2
                && s[2].args[0] == f.name && s[2].on_fail == OnFail::Warn
            &&& !(m.agent_access && f.agent_dir_exists) ==> s.len() == 2
        }),
{
}

/// Agent access is not granted to a VM that was created without it.
pub proof fn lemma_access_is_not_added(f: FactsView, o: UpView)
    requires
        existed(f),
        !had_access(f),
        o.agent_access,
    ensures
        upping(f, o).provision is None,
{
}

// ---------------------------------------------------------------------------
// A VM that runs
// ---------------------------------------------------------------------------

/// What follows once the VM runs: the mirrors, the git identity and the agent's directory.
pub open spec fn after_start(
    f: FactsView,
    m: MetaView,
    mirrors: Seq<EntryView>,
    git_name: Seq<char>,
    git_email: Seq<char>,
) -> Seq<StepView> {
    seq![
        plan::noted(
            Verb::Script,
            seq![f.name, mirror::host_files(mirrors)],
            OnFail::Warn,
            "wtx: warning: mirror config not applied"@,
        ),
        plan::does(
            lima::script_verb(f.quiet),
            seq![f.name, lima::identity_script(git_name, git_email)],
        ),
    ] + lima::linking(f.name, m, f.agent, agent_home_of(f), f.agent_dir_exists)
}

/// The record of the VM after `wtx up`, before a simulator is added to it.
pub open spec fn record_after(f: FactsView, o: UpView, r: Option<RepoView>) -> MetaView {
    lima::rebuilt(
        f.workdir,
        r,
        o,
        existed(f),
        match f.previous {
            Some(m) => m,
            None => lima::blank_meta(),
        },
    )
}

/// The steps on a VM that runs, and its new record.
pub fn up_finish(
    f: &UpFacts,
    o: &UpOpts,
    repo: Option<&RepoInfo>,
    mirrors: &Vec<MirrorEntry>,
    git_name: &str,
    git_email: &str,
) -> (r: (Vec<Step>, InstanceMeta))
    ensures
        r.1@ == record_after(f@, o@, lima::opt_repo(repo)),
        plan::steps(r.0@) == after_start(
            f@,
            r.1@,
            mirror::entries(mirrors@),
            git_name@,
            git_email@,
        ),
{
    let previous: InstanceMeta = match f.previous {
        Some(m) => m.clone(),
        None => InstanceMeta::default(),
    };
    let meta: InstanceMeta = lima::rebuild_meta(
        f.workdir,
        repo,
        o,
        !f.status.is_empty(),
        previous,
    );
    let script: String = mirror::apply_to_vm(mirrors);
    let agent_home: String = creds::agent_home(f.home, f.agent);
    let mut p: Vec<Step> = plan::nothing();
    plan::push(
        &mut p,
        plan::with_note(
            Verb::Script,
            plan::args2(f.name, script.as_str()),
            OnFail::Warn,
            "wtx: warning: mirror config not applied",
        ),
    );
    plan::push(&mut p, lima::apply_host_git_identity(f.name, git_name, git_email, f.quiet));
    plan::append(
        &mut p,
        lima::link_agent_credentials(
            f.name,
            &meta,
            f.agent,
            agent_home.as_str(),
            f.agent_dir_exists,
        ),
    );
    assert(plan::steps(p@) =~= after_start(
        f@,
        meta@,
        mirror::entries(mirrors@),
        git_name@,
        git_email@,
    ));
    (p, meta)
}

} // verus!
