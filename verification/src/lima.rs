//! Instances: their records, options, mounts and life cycle.
use vstd::prelude::*;

use crate::creds;
use crate::golden::GOLDEN;
use crate::json;
use crate::path;
use crate::plan::{self, OnFail, Step, StepView, Verb};
use crate::repo::{RepoInfo, RepoKind, RepoView};
use crate::table;
use crate::text;
use crate::util;

verus! {

/// A directory that a VM shares with the host, under the same path.
pub struct Mount {
    pub location: String,
    pub writable: bool,
}

/// A forwarded port.
#[derive(Clone, Copy, PartialEq, Eq, Structural, Debug)]
pub struct PortMap {
    pub host: u16,
    pub guest: u16,
}

/// What `wtx up` decided, kept for later commands.
pub struct InstanceMeta {
    pub workdir: String,
    pub main_repo: String,
    pub branch: String,
    /// The VM that this one was cloned from with `--from`; empty for regular creation.
    pub seeded_from: String,
    /// The worktree's own simulator; empty if none has been created.
    pub sim_udid: String,
    pub sim_devicetype: String,
    /// Port mappings by label, in the order of the labels.
    pub ports: Vec<(String, PortMap)>,
    /// Whether the VM was created with access to the host's agent directory and SSH agent.
    pub agent_access: bool,
}

pub struct MetaView {
    pub workdir: Seq<char>,
    pub main_repo: Seq<char>,
    pub branch: Seq<char>,
    pub seeded_from: Seq<char>,
    pub sim_udid: Seq<char>,
    pub sim_devicetype: Seq<char>,
    pub ports: Seq<(Seq<char>, PortMap)>,
    pub agent_access: bool,
}

impl View for InstanceMeta {
    type V = MetaView;

    open spec fn view(&self) -> MetaView {
        MetaView {
            workdir: self.workdir@,
            main_repo: self.main_repo@,
            branch: self.branch@,
            seeded_from: self.seeded_from@,
            sim_udid: self.sim_udid@,
            sim_devicetype: self.sim_devicetype@,
            ports: table::rows(self.ports@),
            agent_access: self.agent_access,
        }
    }
}

/// A record keeps its port mappings in the order of their labels, each label once.
pub open spec fn well_formed(m: MetaView) -> bool {
    table::sorted(m.ports)
}

/// A record of nothing.
pub open spec fn blank_meta() -> MetaView {
    MetaView {
        workdir: Seq::empty(),
        main_repo: Seq::empty(),
        branch: Seq::empty(),
        seeded_from: Seq::empty(),
        sim_udid: Seq::empty(),
        sim_devicetype: Seq::empty(),
        ports: Seq::empty(),
        agent_access: false,
    }
}

impl Default for InstanceMeta {
    fn default() -> (r: Self)
        ensures
            r@ == blank_meta(),
            well_formed(r@),
    {
        let r: InstanceMeta = InstanceMeta {
            workdir: text::empty(),
            main_repo: text::empty(),
            branch: text::empty(),
            seeded_from: text::empty(),
            sim_udid: text::empty(),
            sim_devicetype: text::empty(),
            ports: Vec::new(),
            agent_access: false,
        };
        assert(r@.ports =~= Seq::empty());
        r
    }
}

impl Clone for InstanceMeta {
    fn clone(&self) -> (r: Self)
        ensures
            r@ == self@,
    {
        InstanceMeta {
            workdir: self.workdir.clone(),
            main_repo: self.main_repo.clone(),
            branch: self.branch.clone(),
            seeded_from: self.seeded_from.clone(),
            sim_udid: self.sim_udid.clone(),
            sim_devicetype: self.sim_devicetype.clone(),
            ports: copy_ports(&self.ports),
            agent_access: self.agent_access,
        }
    }
}

/// A copy of a list of port mappings.
pub fn copy_ports(ports: &Vec<(String, PortMap)>) -> (r: Vec<(String, PortMap)>)
    ensures
        table::rows(r@) == table::rows(ports@),
{
    let mut out: Vec<(String, PortMap)> = Vec::new();
    let mut i: usize = 0;
    while i < ports.len()
        invariant
            i <= ports@.len(),
            table::rows(out@) == table::rows(ports@).take(i as int),
        decreases ports@.len() - i,
    {
        let ghost before = table::rows(out@);
        out.push((ports[i].0.clone(), ports[i].1));
        assert(table::rows(out@) =~= before.push(table::rows(ports@)[i as int]));
        i += 1;
        assert(table::rows(ports@).take(i as int) =~= table::rows(ports@).take(i - 1).push(
            table::rows(ports@)[i - 1],
        ));
    }
    assert(table::rows(ports@).take(i as int) =~= table::rows(ports@));
    out
}

pub open spec fn opt_meta(m: Option<InstanceMeta>) -> Option<MetaView> {
    match m {
        Some(x) => Some(x@),
        None => None,
    }
}

pub open spec fn opt_meta_ref(m: Option<&InstanceMeta>) -> Option<MetaView> {
    match m {
        Some(x) => Some(x@),
        None => None,
    }
}

pub open spec fn opt_text(s: Option<String>) -> Option<Seq<char>> {
    match s {
        Some(x) => Some(x@),
        None => None,
    }
}

/// The file that keeps a VM's record.
pub open spec fn record_path(home: Seq<char>, name: Seq<char>) -> Seq<char> {
    path::below(util::home_of(home), name + ".json"@)
}

pub fn meta_path(home: &str, name: &str) -> (r: String)
    ensures
        r@ == record_path(home@, name@),
{
    let file: String = name.to_owned().concat(".json");
    path::join(util::wtx_home(home).as_str(), file.as_str())
}

/// The file that keeps a VM's rendered configuration.
pub open spec fn yaml_path_of(home: Seq<char>, name: Seq<char>) -> Seq<char> {
    path::below(util::home_of(home), name + ".yaml"@)
}

pub fn yaml_path(home: &str, name: &str) -> (r: String)
    ensures
        r@ == yaml_path_of(home@, name@),
{
    let file: String = name.to_owned().concat(".yaml");
    path::join(util::wtx_home(home).as_str(), file.as_str())
}

/// The options of `wtx up`.
pub struct UpOpts {
    pub memory: Option<String>,
    pub cpus: Option<u32>,
    pub disk: String,
    pub from: Option<String>,
    pub agent_access: bool,
    pub no_clone: bool,
    pub extra_mounts: Vec<String>,
    pub sim: bool,
    pub sim_device: Option<String>,
}

pub struct UpView {
    pub memory: Option<Seq<char>>,
    pub cpus: Option<u32>,
    pub disk: Seq<char>,
    pub from: Option<Seq<char>>,
    pub agent_access: bool,
    pub no_clone: bool,
    pub extra_mounts: Seq<Seq<char>>,
    pub sim: bool,
    pub sim_device: Option<Seq<char>>,
}

impl View for UpOpts {
    type V = UpView;

    open spec fn view(&self) -> UpView {
        UpView {
            memory: opt_text(self.memory),
            cpus: self.cpus,
            disk: self.disk@,
            from: opt_text(self.from),
            agent_access: self.agent_access,
            no_clone: self.no_clone,
            extra_mounts: text::texts(self.extra_mounts@),
            sim: self.sim,
            sim_device: opt_text(self.sim_device),
        }
    }
}

// ---------------------------------------------------------------------------
// Configuration
// ---------------------------------------------------------------------------

/// The configuration of a new VM, with placeholders.
pub const TEMPLATE: &'static str = r#"# Rendered by wtx.
vmType: vz
mountType: virtiofs
images:
- location: "https://cloud-images.ubuntu.com/releases/24.04/release/ubuntu-24.04-server-cloudimg-arm64.img"
  arch: aarch64
- location: "https://cloud-images.ubuntu.com/releases/24.04/release/ubuntu-24.04-server-cloudimg-amd64.img"
  arch: x86_64
cpus: __CPUS__
memory: __MEMORY__
disk: __DISK__
ssh:
  forwardAgent: __FORWARD_AGENT__
containerd:
  system: false
  user: false
portForwards:
- guestIP: "0.0.0.0"
  ignore: true
- guestIP: "127.0.0.1"
  ignore: true
provision:
- mode: system
  script: |
    #!/bin/bash
    set -eux -o pipefail
    if command -v docker >/dev/null 2>&1; then exit 0; fi
    export DEBIAN_FRONTEND=noninteractive
    mkdir -p /etc/docker
    cat > /etc/docker/daemon.json <<'EOF'
    {
      "registry-mirrors": ["http://host.lima.internal:__MIRROR_PORT__"],
      "insecure-registries": ["host.lima.internal:__MIRROR_PORT__"]
    }
    EOF
    curl -fsSL https://get.docker.com -o /tmp/get-docker.sh
    VERSION=29.7.2 sh /tmp/get-docker.sh
    apt-get install -y --allow-downgrades \
      docker-buildx-plugin=0.30.1-1~ubuntu.24.04~noble \
      docker-compose-plugin=5.0.1-1~ubuntu.24.04~noble
    apt-mark hold docker-ce docker-ce-cli docker-buildx-plugin docker-compose-plugin
    usermod -aG docker "${LIMA_CIDATA_USER}"
probes:
- script: |
    #!/bin/bash
    set -eux -o pipefail
    timeout 300s bash -c "until command -v docker >/dev/null 2>&1; do sleep 3; done"
  hint: docker is not installed yet
mounts:
__MOUNTS__
"#;

/// Mounts as pairs of a location and whether it is writable.
pub open spec fn mounts_view(v: Seq<Mount>) -> Seq<(Seq<char>, bool)> {
    Seq::new(v.len(), |i: int| (v[i].location@, v[i].writable))
}

pub open spec fn truth(b: bool) -> Seq<char> {
    if b {
        "true"@
    } else {
        "false"@
    }
}

fn truth_text(b: bool) -> (r: &'static str)
    ensures
        r@ == truth(b),
{
    if b {
        "true"
    } else {
        "false"
    }
}

/// A mount in the configuration. Its location is a JSON string, which is one line whatever
/// characters the path holds.
pub open spec fn mount_text(m: (Seq<char>, bool)) -> Seq<char> {
    "- location: "@ + json::json_string(m.0) + "\n  writable: "@ + truth(m.1) + "\n"@
}

pub open spec fn mounts_text(ms: Seq<(Seq<char>, bool)>) -> Seq<char>
    decreases ms.len(),
{
    if ms.len() == 0 {
        Seq::empty()
    } else {
        mounts_text(ms.drop_last()) + mount_text(ms.last())
    }
}

/// The configuration lists the mounts one after the other, each with its location and whether it
/// is writable.
pub proof fn lemma_every_mount_is_configured(
    a: Seq<(Seq<char>, bool)>,
    location: Seq<char>,
    writable: bool,
    b: Seq<(Seq<char>, bool)>,
)
    ensures
        mounts_text(a.push((location, writable)) + b) == mounts_text(a) + ("- location: "@
            + json::json_string(location) + "\n  writable: "@ + (if writable {
            "true"@
        } else {
            "false"@
        }) + "\n"@) + mounts_text(b),
    decreases b.len(),
{
    let all = a.push((location, writable)) + b;
    if b.len() == 0 {
        assert(all.drop_last() =~= a);
        assert(mounts_text(all) =~= mounts_text(a) + mount_text((location, writable))
            + mounts_text(b));
    } else {
        let f = b.drop_last();
        lemma_every_mount_is_configured(a, location, writable, f);
        assert(all.drop_last() =~= a.push((location, writable)) + f);
        assert(all.last() == b.last());
        let one = mount_text((location, writable));
        assert(mounts_text(all) =~= mounts_text(a) + one + (mounts_text(f) + mount_text(b.last())));
    }
}

/// The configuration of a VM.
pub open spec fn configuration(
    mounts: Seq<(Seq<char>, bool)>,
    cpus: u32,
    memory: Seq<char>,
    disk: Seq<char>,
    agent_access: bool,
    mirror_port: u16,
) -> Seq<char> {
    let t = text::replaced(TEMPLATE@, "__CPUS__"@, text::dec(cpus as nat));
    let t = text::replaced(t, "__MEMORY__"@, json::json_string(memory));
    let t = text::replaced(t, "__DISK__"@, json::json_string(disk));
    let t = text::replaced(t, "__MIRROR_PORT__"@, text::dec(mirror_port as nat));
    let t = text::replaced(t, "__FORWARD_AGENT__"@, truth(agent_access));
    text::replaced(
        t,
        "__MOUNTS__"@,
        text::trimmed_right(mounts_text(mounts), text::Trim::Space),
    )
}

/// A configuration is the template with the value of each placeholder in its place: the CPUs and the
/// port in decimal, memory and disk as JSON strings, the agent policy, and the mounts.
pub proof fn lemma_configuration_fills_the_template(
    mounts: Seq<(Seq<char>, bool)>,
    cpus: u32,
    memory: Seq<char>,
    disk: Seq<char>,
    agent_access: bool,
    mirror_port: u16,
)
    ensures
        ({
            let a = text::replaced(TEMPLATE@, "__CPUS__"@, text::dec(cpus as nat));
            let b = text::replaced(a, "__MEMORY__"@, json::json_string(memory));
            let c = text::replaced(b, "__DISK__"@, json::json_string(disk));
            let d = text::replaced(c, "__MIRROR_PORT__"@, text::dec(mirror_port as nat));
            let e = text::replaced(
                d,
                "__FORWARD_AGENT__"@,
                if agent_access {
                    "true"@
                } else {
                    "false"@
                },
            );
            configuration(mounts, cpus, memory, disk, agent_access, mirror_port) == text::replaced(
                e,
                "__MOUNTS__"@,
                text::trimmed_right(mounts_text(mounts), text::Trim::Space),
            )
        }),
{
}

/// Render the configuration of a VM.
pub fn render_yaml(
    mounts: &Vec<Mount>,
    cpus: u32,
    memory: &str,
    disk: &str,
    agent_access: bool,
    mirror_port: u16,
) -> (r: String)
    ensures
        r@ == configuration(
            mounts_view(mounts@),
            cpus,
            memory@,
            disk@,
            agent_access,
            mirror_port,
        ),
{
    let ghost v = mounts_view(mounts@);
    let mut m: String = text::empty();
    let mut i: usize = 0;
    assert(v.take(0) =~= Seq::empty());
    while i < mounts.len()
        invariant
            i <= mounts@.len(),
            v == mounts_view(mounts@),
            m@ == mounts_text(v.take(i as int)),
        decreases mounts@.len() - i,
    {
        assert(v.take(i + 1).drop_last() =~= v.take(i as int));
        assert(v.take(i + 1).last() == v[i as int]);
        let location: String = json::quote(mounts[i].location.as_str());
        let one: String = "- location: ".to_owned().concat(location.as_str()).concat(
            "\n  writable: ",
        ).concat(truth_text(mounts[i].writable)).concat("\n");
        m = m.concat(one.as_str());
        i += 1;
    }
    assert(v.take(i as int) =~= v);
    proof {
        reveal_strlit("__CPUS__");
        reveal_strlit("__MEMORY__");
        reveal_strlit("__DISK__");
        reveal_strlit("__MIRROR_PORT__");
        reveal_strlit("__FORWARD_AGENT__");
        reveal_strlit("__MOUNTS__");
    }
    let c: String = text::dec_of(cpus as u64);
    let p: String = text::dec_of(mirror_port as u64);
    let mem: String = json::quote(memory);
    let dsk: String = json::quote(disk);
    let t: String = text::replace(TEMPLATE, "__CPUS__", c.as_str());
    let t: String = text::replace(t.as_str(), "__MEMORY__", mem.as_str());
    let t: String = text::replace(t.as_str(), "__DISK__", dsk.as_str());
    let t: String = text::replace(t.as_str(), "__MIRROR_PORT__", p.as_str());
    let t: String = text::replace(t.as_str(), "__FORWARD_AGENT__", truth_text(agent_access));
    text::replace(t.as_str(), "__MOUNTS__", text::trim_right(m.as_str(), &text::Trim::Space))
}

/// A step of `limactl`: on the terminal, or silent with its error kept.
pub open spec fn lima_step(args: Seq<Seq<char>>, quiet: bool) -> StepView {
    if quiet {
        plan::noted(
            Verb::LimactlCapture,
            args,
            OnFail::AbortAs,
            "limactl "@ + text::joined(args, " "@),
        )
    } else {
        plan::does(Verb::Limactl, args)
    }
}

pub fn up_limactl(args: Vec<String>, quiet: bool) -> (r: Step)
    ensures
        r@ == lima_step(text::texts(args@), quiet),
{
    if quiet {
        let all: String = text::join(&args, " ");
        let note: String = "limactl ".to_owned().concat(all.as_str());
        plan::with_note(Verb::LimactlCapture, args, OnFail::AbortAs, note.as_str())
    } else {
        plan::must(Verb::Limactl, args)
    }
}

/// The options of `limactl clone` for mounts.
pub open spec fn mount_options(ms: Seq<(Seq<char>, bool)>) -> Seq<Seq<char>>
    decreases ms.len(),
{
    if ms.len() == 0 {
        Seq::empty()
    } else {
        mount_options(ms.drop_last()) + seq![
            "--mount-only"@,
            if ms.last().1 {
                ms.last().0 + ":w"@
            } else {
                ms.last().0
            },
        ]
    }
}

pub open spec fn memory_option(m: Option<Seq<char>>) -> Seq<Seq<char>> {
    match m {
        Some(x) => seq!["--memory"@, text::without_suffixes(x, "GiB"@)],
        None => Seq::empty(),
    }
}

pub open spec fn cpus_option(c: Option<u32>) -> Seq<Seq<char>> {
    match c {
        Some(n) => seq!["--cpus"@, text::dec(n as nat)],
        None => Seq::empty(),
    }
}

/// The arguments of `limactl clone`. A clone's configuration is already resolved, so its mounts
/// are replaced and its agent policy is set again; memory and CPUs are inherited unless given.
pub open spec fn cloning(
    src: Seq<char>,
    name: Seq<char>,
    o: UpView,
    ms: Seq<(Seq<char>, bool)>,
) -> Seq<Seq<char>> {
    seq!["clone"@, src, name, "--set"@, ".ssh.forwardAgent="@ + truth(o.agent_access)]
        + memory_option(o.memory) + cpus_option(o.cpus) + mount_options(ms)
}

proof fn lemma_mount_options(ms: Seq<(Seq<char>, bool)>, i: int)
    requires
        0 <= i < ms.len(),
    ensures
        mount_options(ms).len() == 2 * ms.len(),
        mount_options(ms)[2 * i] == "--mount-only"@,
        ms[i].1 ==> mount_options(ms)[2 * i + 1] == ms[i].0 + ":w"@,
        !ms[i].1 ==> mount_options(ms)[2 * i + 1] == ms[i].0,
    decreases ms.len(),
{
    let f = ms.drop_last();
    let last = seq![
        "--mount-only"@,
        if ms.last().1 {
            ms.last().0 + ":w"@
        } else {
            ms.last().0
        },
    ];
    assert(mount_options(ms) == mount_options(f) + last);
    if f.len() == 0 {
        assert(mount_options(f).len() == 0);
    } else if i < f.len() {
        lemma_mount_options(f, i);
        assert(f[i] == ms[i]);
    } else {
        lemma_mount_options(f, 0);
    }
}

/// A clone is made of the named VM under the new name, with the agent policy, the memory and the
/// CPUs that were asked for; behind these options stands a pair of arguments for each mount, in
/// their order, and a mount is writable in the clone exactly if it is to be.
pub proof fn lemma_clone_gets_every_mount(
    src: Seq<char>,
    name: Seq<char>,
    o: UpView,
    ms: Seq<(Seq<char>, bool)>,
    i: int,
)
    ensures
        ({
            let args = cloning(src, name, o, ms);
            let m: int = if o.memory is Some {
                2
            } else {
                0
            };
            let c: int = if o.cpus is Some {
                2
            } else {
                0
            };
            let n: int = 5 + m + c;
            &&& args.len() == n + 2 * ms.len()
            &&& args[0] == "clone"@ && args[1] == src && args[2] == name
            &&& args[3] == "--set"@
            &&& o.agent_access ==> args[4] == ".ssh.forwardAgent="@ + "true"@
            &&& !o.agent_access ==> args[4] == ".ssh.forwardAgent="@ + "false"@
            &&& o.memory matches Some(x) ==> args[5] == "--memory"@ && (text::has_suffix(
                x,
                "GiB"@,
            ) || args[6] == x) && (forall|d: Seq<char>|
                #![trigger d + "GiB"@]
                x == d + "GiB"@ && !text::has_suffix(d, "GiB"@) ==> args[6] == d)
            &&& o.cpus matches Some(k) ==> args[5 + m] == "--cpus"@ && text::parsed(
                args[6 + m],
                u32::MAX as nat,
            ) == Some(k as nat)
            &&& 0 <= i < ms.len() ==> {
                &&& args[n + 2 * i] == "--mount-only"@
                &&& ms[i].1 ==> args[n + 2 * i + 1] == ms[i].0 + ":w"@
                &&& !ms[i].1 ==> args[n + 2 * i + 1] == ms[i].0
            }
        }),
{
    reveal_strlit("GiB");
    let args = cloning(src, name, o, ms);
    let head = seq!["clone"@, src, name, "--set"@, ".ssh.forwardAgent="@ + truth(o.agent_access)]
        + memory_option(o.memory) + cpus_option(o.cpus);
    assert(args =~= head + mount_options(ms));
    match o.memory {
        Some(x) => {
            assert forall|d: Seq<char>|
                #![trigger d + "GiB"@]
                x == d + "GiB"@ && !text::has_suffix(d, "GiB"@) implies args[6] == d by {
                assert(x.skip(d.len() as int) =~= "GiB"@);
                assert(x.take(d.len() as int) =~= d);
                assert(text::without_suffixes(d, "GiB"@) == d);
            }
        },
        None => {},
    }
    match o.cpus {
        Some(k) => {
            text::lemma_parse_dec(k as nat, u32::MAX as nat);
        },
        None => {},
    }
    if ms.len() > 0 {
        lemma_mount_options(ms, 0);
    }
    let n = head.len() as int;
    let m: int = if o.memory is Some {
        2
    } else {
        0
    };
    assert(n == 5 + m + (if o.cpus is Some {
        2int
    } else {
        0int
    }));
    assert(args.len() == n + 2 * ms.len());
    assert(args[0] == "clone"@ && args[1] == src && args[2] == name && args[3] == "--set"@);
    assert(args[4] == ".ssh.forwardAgent="@ + truth(o.agent_access));
    if o.memory is Some {
        assert(args[5] == "--memory"@);
        assert(args[6] == text::without_suffixes(o.memory->0, "GiB"@));
    }
    if o.cpus is Some {
        assert(args[5 + m] == "--cpus"@);
        assert(args[6 + m] == text::dec(o.cpus->0 as nat));
    }
    if 0 <= i < ms.len() {
        lemma_mount_options(ms, i);
        assert(args[n + 2 * i] == mount_options(ms)[2 * i]);
        assert(args[n + 2 * i + 1] == mount_options(ms)[2 * i + 1]);
    }
}

pub fn clone_args(src: &str, name: &str, o: &UpOpts, mounts: &Vec<Mount>) -> (r: Vec<String>)
    ensures
        text::texts(r@) == cloning(src@, name@, o@, mounts_view(mounts@)),
{
    let policy: String = ".ssh.forwardAgent=".to_owned().concat(truth_text(o.agent_access));
    let mut args: Vec<String> = plan::args5("clone", src, name, "--set", policy.as_str());
    match &o.memory {
        Some(m) => {
            text::push_text(&mut args, "--memory");
            text::push_text(&mut args, text::trim_suffixes(m.as_str(), "GiB"));
        },
        None => {},
    }
    match o.cpus {
        Some(n) => {
            text::push_text(&mut args, "--cpus");
            text::push_string(&mut args, text::dec_of(n as u64));
        },
        None => {},
    }
    let ghost head = text::texts(args@);
    assert(head =~= seq!["clone"@, src@, name@, "--set"@, ".ssh.forwardAgent="@ + truth(
        o.agent_access,
    )] + memory_option(o@.memory) + cpus_option(o@.cpus));
    let ghost v = mounts_view(mounts@);
    let mut i: usize = 0;
    assert(v.take(0) =~= Seq::empty());
    assert(head + mount_options(v.take(0)) =~= head);
    while i < mounts.len()
        invariant
            i <= mounts@.len(),
            v == mounts_view(mounts@),
            text::texts(args@) == head + mount_options(v.take(i as int)),
        decreases mounts@.len() - i,
    {
        assert(v.take(i + 1).drop_last() =~= v.take(i as int));
        assert(v.take(i + 1).last() == v[i as int]);
        text::push_text(&mut args, "--mount-only");
        let location: String = if mounts[i].writable {
            mounts[i].location.clone().concat(":w")
        } else {
            mounts[i].location.clone()
        };
        text::push_string(&mut args, location);
        assert(text::texts(args@) =~= head + mount_options(v.take(i + 1)));
        i += 1;
    }
    assert(v.take(i as int) =~= v);
    args
}

// ---------------------------------------------------------------------------
// Seeding from another VM
// ---------------------------------------------------------------------------

/// The lower-case form of a text.
pub uninterp spec fn lower_text(s: Seq<char>) -> Seq<char>;

/// `str::to_lowercase`: the text in lower case by the rules of Unicode. On ASCII text it changes
/// the letters `A` to `Z` and nothing else.
#[verifier::external_body]
fn lowercase(s: &str) -> (r: String)
    ensures
        r@ == lower_text(s@),
        all_ascii(s@) ==> r@ == text::lowered(s@),
{
    s.to_lowercase()
}

pub open spec fn project_char(c: char) -> bool {
    text::is_alnum(c) || c == '_' || c == '-'
}

/// The characters of a text that a project name may hold.
pub open spec fn project_chars(s: Seq<char>) -> Seq<char>
    decreases s.len(),
{
    if s.len() == 0 {
        s
    } else if project_char(s.last()) {
        project_chars(s.drop_last()).push(s.last())
    } else {
        project_chars(s.drop_last())
    }
}

/// Docker Compose's default project name for a directory whose name in lower case is given.
pub open spec fn project_of(lowered: Seq<char>) -> Seq<char> {
    text::trimmed_left(project_chars(lowered), text::Trim::NonAlnum)
}

/// A project name holds the letters, digits, `_` and `-` of the directory's name, all of them and in
/// their order, from the first letter or digit on.
pub proof fn lemma_project_name(s: Seq<char>)
    ensures
        project_chars(s) == s.filter(
            |c: char|
                '0' <= c <= '9' || 'a' <= c <= 'z' || 'A' <= c <= 'Z' || c == '_' || c == '-',
        ),
        exists|i: int|
            0 <= i <= project_chars(s).len() && project_of(s) == #[trigger] project_chars(s).skip(i)
                && (forall|j: int|
                0 <= j < i ==> (#[trigger] project_chars(s)[j] == '_' || project_chars(s)[j]
                    == '-')),
        project_of(s).len() > 0 ==> text::is_alnum(project_of(s)[0]),
{
    lemma_project_chars(s);
    let p = project_chars(s);
    lemma_skipped(p);
    text::lemma_trimmed_left(p, text::Trim::NonAlnum);
    let i = p.len() - project_of(s).len();
    assert(project_of(s) == p.skip(i));
    assert forall|j: int| 0 <= j < i implies (#[trigger] p[j] == '_' || p[j] == '-') by {
        assert(!text::is_alnum(p[j]));
        assert(project_char(p[j]));
    }
}

proof fn lemma_project_chars(s: Seq<char>)
    ensures
        project_chars(s) == s.filter(
            |c: char|
                '0' <= c <= '9' || 'a' <= c <= 'z' || 'A' <= c <= 'Z' || c == '_' || c == '-',
        ),
        forall|j: int| 0 <= j < project_chars(s).len() ==> project_char(#[trigger] project_chars(s)[j]),
    decreases s.len(),
{
    reveal(Seq::filter);
    if s.len() > 0 {
        lemma_project_chars(s.drop_last());
    }
}

proof fn lemma_skipped(p: Seq<char>)
    ensures
        forall|j: int|
            0 <= j < p.len() - text::trimmed_left(p, text::Trim::NonAlnum).len()
                ==> !text::is_alnum(#[trigger] p[j]),
    decreases p.len(),
{
    if p.len() > 0 && !text::is_alnum(p[0]) {
        lemma_skipped(p.skip(1));
        assert forall|j: int|
            0 <= j < p.len() - text::trimmed_left(p, text::Trim::NonAlnum).len() implies !text::is_alnum(
        #[trigger] p[j]) by {
            if j > 0 {
                assert(p.skip(1)[j - 1] == p[j]);
            }
        }
    }
}

pub open spec fn dir_name(dir: Seq<char>) -> Seq<char> {
    match path::name_of(dir) {
        Some(n) => n,
        None => Seq::empty(),
    }
}

/// The project name for a directory name in lower case.
pub fn clean_project(lowered: &str) -> (r: String)
    ensures
        r@ == project_of(lowered@),
{
    let mut kept: String = text::empty();
    assert(lowered@.take(0) =~= Seq::empty());
    for c in it: lowered.chars()
        invariant
            it.seq() == lowered@,
            kept@ == project_chars(lowered@.take(it.index() as int)),
    {
        let ghost k = it.index() as int;
        assert(lowered@.take(k + 1).drop_last() =~= lowered@.take(k));
        assert(lowered@.take(k + 1).last() == c);
        if text::char_is_alnum(c) || c == '_' || c == '-' {
            kept.push(c);
        }
    }
    assert(lowered@.take(lowered@.len() as int) =~= lowered@);
    text::trim_left(kept.as_str(), &text::Trim::NonAlnum).to_owned()
}

/// Docker Compose's default project name for a directory.
pub open spec fn project_named(dir: Seq<char>) -> Seq<char> {
    match path::name_of(dir) {
        Some(n) => project_of(lower_text(n)),
        None => project_of(Seq::empty()),
    }
}

pub open spec fn all_ascii(s: Seq<char>) -> bool {
    forall|i: int| 0 <= i < s.len() ==> (#[trigger] s[i] as u32) < 128
}

/// Docker Compose's default project name, which begins the names of its volumes: another
/// directory name means other volume names.
pub fn compose_project_name(dir: &str) -> (r: String)
    ensures
        r@ == project_named(dir@),
        all_ascii(dir_name(dir@)) ==> r@ == project_of(text::lowered(dir_name(dir@))),
{
    match path::file_name(dir) {
        Some(n) => {
            let l: String = lowercase(n.as_str());
            clean_project(l.as_str())
        },
        None => {
            let none: String = text::empty();
            assert(text::lowered(none@) =~= none@);
            clean_project(none.as_str())
        },
    }
}

/// The part of a volume's name behind the source project, and the volume's name in the
/// destination project. `None` if the volume keeps its name.
pub open spec fn renaming(src: Seq<char>, dst: Seq<char>, volume: Seq<char>) -> Option<
    (Seq<char>, Seq<char>),
> {
    if src.len() == 0 || src == dst {
        None
    } else {
        match text::without_prefix(volume, src + "_"@) {
            Some(suffix) => if suffix.len() == 0 {
                None
            } else {
                Some((suffix, dst + "_"@ + suffix))
            },
            None => None,
        }
    }
}

pub fn renamed_volume(src: &str, dst: &str, volume: &str) -> (r: Option<(String, String)>)
    ensures
        r is Some == renaming(src@, dst@, volume@) is Some,
        r matches Some(x) ==> renaming(src@, dst@, volume@) == Some((x.0@, x.1@)),
{
    if src.is_empty() || text::same(src, dst) {
        return None;
    }
    let prefix: String = src.to_owned().concat("_");
    match text::strip_prefix(volume, prefix.as_str()) {
        Some(suffix) => {
            if suffix.is_empty() {
                return None;
            }
            let renamed: String = dst.to_owned().concat("_").concat(suffix);
            Some((suffix.to_owned(), renamed))
        },
        None => None,
    }
}

/// Renaming a volume back gives its old name.
pub proof fn lemma_renaming_is_undone(
    src: Seq<char>,
    dst: Seq<char>,
    volume: Seq<char>,
    suffix: Seq<char>,
    renamed: Seq<char>,
)
    requires
        renaming(src, dst, volume) == Some((suffix, renamed)),
        dst.len() > 0,
    ensures
        renaming(dst, src, renamed) == Some((suffix, volume)),
{
    let p = dst + "_"@;
    assert(renamed.take(p.len() as int) =~= p);
    assert(renamed.skip(p.len() as int) =~= suffix);
    let q = src + "_"@;
    assert(volume =~= q + suffix) by {
        assert(volume =~= volume.take(q.len() as int) + volume.skip(q.len() as int));
    }
}

pub const SEED_CLEANUP: &'static str = r#"

# Remove isolated Git state created by older wtx versions when migrating a legacy VM.
# Stopping and deleting the unit is best effort, but fail if the overlay cannot be removed;
# otherwise Git would silently continue using the source VM's state.
sudo systemctl disable --now wtx-gitmount.service >/dev/null 2>&1 || true
sudo rm -f /etc/systemd/system/wtx-gitmount.service /usr/local/sbin/wtx-gitmount
sudo systemctl daemon-reload >/dev/null 2>&1 || true
if [ -n "$OLDGIT" ]; then
  n=0
  while [ -e "$OLDGIT/.wtx-local" ] && [ $n -lt 5 ]; do
    sudo umount "$OLDGIT" 2>/dev/null || true
    n=$((n+1))
  done
  if [ -e "$OLDGIT/.wtx-local" ]; then
    echo "wtx: could not remove the stale git overlay at $OLDGIT" >&2
    exit 1
  fi
fi
if mountpoint -q /run/wtx/base.git 2>/dev/null; then sudo umount /run/wtx/base.git || true; fi
sudo rm -rf /var/lib/wtx/git

# Docker containers are disposable because Compose recreates them. Preserve valuable volumes
# and images while removing containers and unused networks.
n=0
until docker info >/dev/null 2>&1; do
  n=$((n+1))
  if [ $n -ge 120 ]; then echo "wtx: dockerd did not come up in the seeded VM" >&2; exit 1; fi
  sleep 1
done
docker ps -aq | xargs -r docker rm -fv >/dev/null
docker network prune -f >/dev/null 2>&1 || true

# Compose volume names use <project-name>_ as a prefix. Rename source-project volumes because
# changing the worktree directory changes the referenced names. Projects with a fixed `name:`
# in the Compose file do not match this prefix and are skipped.
"#;

/// The `.git` of the source VM's repository, where an old overlay may be left.
pub open spec fn old_gitdir(src: Option<MetaView>) -> Seq<char> {
    match src {
        Some(m) => if m.main_repo.len() == 0 {
            Seq::empty()
        } else {
            m.main_repo + "/.git"@
        },
        None => Seq::empty(),
    }
}

/// The script that takes the source's own state out of a clone.
pub open spec fn cleanup_script(src: Option<MetaView>) -> Seq<char> {
    "set -eu\nOLDGIT="@ + util::quoted(old_gitdir(src)) + SEED_CLEANUP@
}

pub fn seed_cleanup_script(src: Option<&InstanceMeta>) -> (r: String)
    ensures
        r@ == cleanup_script(opt_meta_ref(src)),
{
    let old: String = match src {
        Some(m) => if m.main_repo.as_str().is_empty() {
            text::empty()
        } else {
            m.main_repo.clone().concat("/.git")
        },
        None => text::empty(),
    };
    let q: String = util::shq(old.as_str());
    "set -eu\nOLDGIT=".to_owned().concat(q.as_str()).concat(SEED_CLEANUP)
}

/// The verb that runs a script, with or without its standard output.
pub open spec fn script_verb(quiet: bool) -> Verb {
    if quiet {
        Verb::ScriptQuiet
    } else {
        Verb::Script
    }
}

fn script_step(name: &str, script: &str, quiet: bool) -> (r: Step)
    ensures
        r@ == plan::does(script_verb(quiet), seq![name@, script@]),
{
    let verb: Verb = if quiet { Verb::ScriptQuiet } else { Verb::Script };
    plan::must(verb, plan::args2(name, script))
}

/// The script that moves a volume's data under a new name, with Compose's labels on it.
pub open spec fn rename_script(
    dst: Seq<char>,
    volume: Seq<char>,
    suffix: Seq<char>,
    renamed: Seq<char>,
) -> Seq<char> {
    "set -eu\ndocker volume create \\\n  --label "@ + util::quoted(
        "com.docker.compose.project="@ + dst,
    ) + " \\\n  --label "@ + util::quoted("com.docker.compose.volume="@ + suffix) + " \\\n  "@
        + util::quoted(renamed) + " >/dev/null\nsudo cp -a "@ + util::quoted(
        "/var/lib/docker/volumes/"@ + volume + "/_data"@,
    ) + "/. "@ + util::quoted("/var/lib/docker/volumes/"@ + renamed + "/_data"@)
        + "/\ndocker volume rm "@ + util::quoted(volume)
        + " >/dev/null\nprintf 'wtx: volume %s -> %s\\n' "@ + util::quoted(volume) + " "@
        + util::quoted(renamed) + "\n"@
}

fn volume_script(dst: &str, volume: &str, suffix: &str, renamed: &str) -> (r: String)
    ensures
        r@ == rename_script(dst@, volume@, suffix@, renamed@),
{
    let project: String = "com.docker.compose.project=".to_owned().concat(dst);
    let label: String = "com.docker.compose.volume=".to_owned().concat(suffix);
    let from: String = "/var/lib/docker/volumes/".to_owned().concat(volume).concat("/_data");
    let to: String = "/var/lib/docker/volumes/".to_owned().concat(renamed).concat("/_data");
    let project: String = util::shq(project.as_str());
    let label: String = util::shq(label.as_str());
    let from: String = util::shq(from.as_str());
    let to: String = util::shq(to.as_str());
    let old_name: String = util::shq(volume);
    let new_name: String = util::shq(renamed);
    "set -eu\ndocker volume create \\\n  --label ".to_owned().concat(project.as_str()).concat(
        " \\\n  --label ",
    ).concat(label.as_str()).concat(" \\\n  ").concat(new_name.as_str()).concat(
        " >/dev/null\nsudo cp -a ",
    ).concat(from.as_str()).concat("/. ").concat(to.as_str()).concat(
        "/\ndocker volume rm ",
    ).concat(old_name.as_str()).concat(" >/dev/null\nprintf 'wtx: volume %s -> %s\\n' ").concat(
        old_name.as_str(),
    ).concat(" ").concat(new_name.as_str()).concat("\n")
}

/// The steps that rename the source project's volumes among the given ones.
pub open spec fn volume_steps(
    name: Seq<char>,
    src: Seq<char>,
    dst: Seq<char>,
    volumes: Seq<Seq<char>>,
    quiet: bool,
) -> Seq<StepView>
    decreases volumes.len(),
{
    if volumes.len() == 0 {
        Seq::empty()
    } else {
        let before = volume_steps(name, src, dst, volumes.drop_last(), quiet);
        match renaming(src, dst, volumes.last()) {
            Some((suffix, renamed)) => before.push(
                plan::does(
                    script_verb(quiet),
                    seq![name, rename_script(dst, volumes.last(), suffix, renamed)],
                ),
            ),
            None => before,
        }
    }
}

/// Rename the volumes of a seeded VM for its own project, given what `docker volume ls -q`
/// printed.
pub fn rename_volumes(name: &str, src: &str, dst: &str, listing: &str, quiet: bool) -> (r: Vec<
    Step,
>)
    ensures
        plan::steps(r@) == volume_steps(
            name@,
            src@,
            dst@,
            text::lines_of(listing@),
            quiet,
        ),
{
    let lines: Vec<String> = text::lines(listing);
    let ghost t = text::texts(lines@);
    let mut p: Vec<Step> = plan::nothing();
    let mut i: usize = 0;
    assert(t.take(0) =~= Seq::empty());
    while i < lines.len()
        invariant
            i <= lines@.len(),
            t == text::texts(lines@),
            plan::steps(p@) == volume_steps(name@, src@, dst@, t.take(i as int), quiet),
        decreases lines@.len() - i,
    {
        assert(t.take(i + 1).drop_last() =~= t.take(i as int));
        assert(t.take(i + 1).last() == t[i as int]);
        match renamed_volume(src, dst, lines[i].as_str()) {
            Some((suffix, renamed)) => {
                let script: String = volume_script(
                    dst,
                    lines[i].as_str(),
                    suffix.as_str(),
                    renamed.as_str(),
                );
                plan::push(&mut p, script_step(name, script.as_str(), quiet));
            },
            None => {},
        }
        i += 1;
    }
    assert(t.take(i as int) =~= t);
    p
}

/// Whether a name is that of one of a project's volumes: something behind the project and `_`.
pub open spec fn volume_of(project: Seq<char>, v: Seq<char>) -> bool {
    v.len() > project.len() + 1 && v.take(project.len() as int) == project && v[project.len() as int]
        == '_'
}

/// Whether a step creates the destination project's volume of the same suffix, with Compose's
/// labels, copies the data of the volume into it and removes the volume, in this order.
pub open spec fn moves_volume(
    s: StepView,
    name: Seq<char>,
    src: Seq<char>,
    dst: Seq<char>,
    v: Seq<char>,
    quiet: bool,
) -> bool {
    let suffix = v.skip(src.len() as int + 1);
    let new = dst + "_"@ + suffix;
    &&& s.on_fail == OnFail::Abort
    &&& quiet ==> s.verb == Verb::ScriptQuiet
    &&& !quiet ==> s.verb == Verb::Script
    &&& s.args.len() == 2
    &&& s.args[0] == name
    &&& text::has_prefix(
        s.args[1],
        "set -eu\ndocker volume create \\\n  --label "@ + util::quoted(
            "com.docker.compose.project="@ + dst,
        ) + " \\\n  --label "@ + util::quoted("com.docker.compose.volume="@ + suffix) + " \\\n  "@
            + util::quoted(new) + " >/dev/null\nsudo cp -a "@ + util::quoted(
            "/var/lib/docker/volumes/"@ + v + "/_data"@,
        ) + "/. "@ + util::quoted("/var/lib/docker/volumes/"@ + new + "/_data"@)
            + "/\ndocker volume rm "@ + util::quoted(v) + " >/dev/null\n"@,
    )
}

proof fn lemma_moves_volume(
    name: Seq<char>,
    src: Seq<char>,
    dst: Seq<char>,
    v: Seq<char>,
    quiet: bool,
)
    requires
        src.len() > 0,
        src != dst,
    ensures
        renaming(src, dst, v) is Some == volume_of(src, v),
        renaming(src, dst, v) matches Some((suffix, renamed)) ==> moves_volume(
            plan::does(script_verb(quiet), seq![name, rename_script(dst, v, suffix, renamed)]),
            name,
            src,
            dst,
            v,
            quiet,
        ),
{
    reveal_strlit("_");
    let p = src + "_"@;
    let n = src.len() as int;
    if volume_of(src, v) {
        assert(v.take(n + 1) =~= p);
    }
    if text::has_prefix(v, p) {
        assert(v.take(n) =~= v.take(n + 1).take(n));
        assert(p.take(n) =~= src);
        assert(v.take(n + 1)[n] == '_');
    }
    match renaming(src, dst, v) {
        Some((suffix, renamed)) => {
            let script = rename_script(dst, v, suffix, renamed);
            let begin = "set -eu\ndocker volume create \\\n  --label "@ + util::quoted(
                "com.docker.compose.project="@ + dst,
            ) + " \\\n  --label "@ + util::quoted("com.docker.compose.volume="@ + suffix)
                + " \\\n  "@ + util::quoted(renamed) + " >/dev/null\nsudo cp -a "@ + util::quoted(
                "/var/lib/docker/volumes/"@ + v + "/_data"@,
            ) + "/. "@ + util::quoted("/var/lib/docker/volumes/"@ + renamed + "/_data"@)
                + "/\ndocker volume rm "@ + util::quoted(v);
            reveal_strlit(" >/dev/null\nprintf 'wtx: volume %s -> %s\\n' ");
            reveal_strlit(" >/dev/null\n");
            reveal_strlit("printf 'wtx: volume %s -> %s\\n' ");
            assert(" >/dev/null\nprintf 'wtx: volume %s -> %s\\n' "@ =~= " >/dev/null\n"@
                + "printf 'wtx: volume %s -> %s\\n' "@);
            let q = begin + " >/dev/null\n"@;
            assert(script.take(q.len() as int) =~= q);
        },
        None => {},
    }
}

/// Every volume of the source project is renamed, in the order of the list, and no other volume is
/// touched: there is one step for each, and it moves that volume's data to the destination
/// project's volume of the same suffix. Nothing is renamed without a source project, or if it is
/// the destination's own.
pub proof fn lemma_every_volume_is_renamed(
    name: Seq<char>,
    src: Seq<char>,
    dst: Seq<char>,
    volumes: Seq<Seq<char>>,
    quiet: bool,
)
    ensures
        ({
            let steps = volume_steps(name, src, dst, volumes, quiet);
            let mine = volumes.filter(|v: Seq<char>| volume_of(src, v));
            &&& src.len() == 0 || src == dst ==> steps.len() == 0
            &&& src.len() > 0 && src != dst ==> steps.len() == mine.len() && (forall|i: int|
                #![trigger mine[i]]
                #![trigger steps[i]]
                0 <= i < mine.len() ==> moves_volume(steps[i], name, src, dst, mine[i], quiet))
                && (forall|k: int|
                0 <= k < volumes.len() && volume_of(src, #[trigger] volumes[k]) ==> exists|i: int|
                    0 <= i < steps.len() && moves_volume(
                        #[trigger] steps[i],
                        name,
                        src,
                        dst,
                        volumes[k],
                        quiet,
                    ))
        }),
    decreases volumes.len(),
{
    reveal(Seq::filter);
    let steps = volume_steps(name, src, dst, volumes, quiet);
    let of = |v: Seq<char>| volume_of(src, v);
    let mine = volumes.filter(of);
    if volumes.len() > 0 {
        let f = volumes.drop_last();
        let v = volumes.last();
        lemma_every_volume_is_renamed(name, src, dst, f, quiet);
        if src.len() > 0 && src != dst {
            lemma_moves_volume(name, src, dst, v, quiet);
            let before = volume_steps(name, src, dst, f, quiet);
            assert(forall|i: int| 0 <= i < before.len() ==> steps[i] == before[i]);
            assert(forall|i: int| 0 <= i < f.filter(of).len() ==> mine[i] == f.filter(of)[i]);
            assert forall|k: int|
                0 <= k < volumes.len() && volume_of(src, #[trigger] volumes[k]) implies exists|
                i: int,
            |
                0 <= i < steps.len() && moves_volume(
                    #[trigger] steps[i],
                    name,
                    src,
                    dst,
                    volumes[k],
                    quiet,
                ) by {
                if k < f.len() {
                    assert(f[k] == volumes[k]);
                    let i = choose|i: int|
                        0 <= i < before.len() && moves_volume(
                            #[trigger] before[i],
                            name,
                            src,
                            dst,
                            f[k],
                            quiet,
                        );
                    assert(steps[i] == before[i]);
                } else {
                    assert(steps[before.len() as int] == steps.last());
                }
            }
        }
    }
}

/// The project of a VM's working directory; none without a record.
pub open spec fn recorded_project(m: Option<MetaView>) -> Seq<char> {
    match m {
        Some(x) => project_named(x.workdir),
        None => Seq::empty(),
    }
}

/// The projects between which volumes move are those of the two directories' own names, in lower
/// case.
pub proof fn lemma_projects_are_those_of_the_directories(dir: Seq<char>, base: Seq<char>, m: MetaView)
    requires
        path::tidy(dir),
        path::entry_name(base),
        m.workdir == dir + "/"@ + base,
    ensures
        project_named(dir + "/"@ + base) == project_of(lower_text(base)),
        recorded_project(Some(m)) == project_of(lower_text(base)),
        recorded_project(None).len() == 0,
{
    path::lemma_entry_of_directory(dir, base);
}

/// Rename the volumes of a VM that was seeded from the VM of the given record, for the project of
/// its own working directory.
pub fn seed_cleanup(
    name: &str,
    src: Option<&InstanceMeta>,
    workdir: &str,
    listing: &str,
    quiet: bool,
) -> (r: Vec<Step>)
    ensures
        plan::steps(r@) == volume_steps(
            name@,
            recorded_project(opt_meta_ref(src)),
            project_named(workdir@),
            text::lines_of(listing@),
            quiet,
        ),
{
    let from: String = match src {
        Some(m) => compose_project_name(m.workdir.as_str()),
        None => text::empty(),
    };
    let to: String = compose_project_name(workdir);
    rename_volumes(name, from.as_str(), to.as_str(), listing, quiet)
}

// ---------------------------------------------------------------------------
// Provisioning
// ---------------------------------------------------------------------------

/// How a VM comes to be.
#[derive(Clone, Copy, PartialEq, Eq, Structural, Debug)]
pub enum ProvisionPath {
    /// Cloned from another VM with `--from`.
    Seed,
    /// It exists already.
    Reattach,
    /// Cloned from the shared base VM.
    Golden,
    /// Installed from scratch.
    Fresh,
}

pub open spec fn path_for(status: Seq<char>, has_seed: bool, no_clone: bool) -> Option<
    ProvisionPath,
> {
    if has_seed {
        if status.len() == 0 {
            Some(ProvisionPath::Seed)
        } else {
            None
        }
    } else if status.len() != 0 {
        Some(ProvisionPath::Reattach)
    } else if no_clone {
        Some(ProvisionPath::Fresh)
    } else {
        Some(ProvisionPath::Golden)
    }
}

pub fn provision_path(status: &str, has_seed: bool, no_clone: bool) -> (r: Result<
    ProvisionPath,
    String,
>)
    ensures
        match path_for(status@, has_seed, no_clone) {
            Some(p) => r matches Ok(x) && x == p,
            None => r matches Err(e) && e@ == "--from can only seed a new VM"@,
        },
{
    if has_seed && !status.is_empty() {
        return Err("--from can only seed a new VM".to_owned());
    }
    if has_seed {
        return Ok(ProvisionPath::Seed);
    }
    if !status.is_empty() {
        return Ok(ProvisionPath::Reattach);
    }
    if no_clone {
        return Ok(ProvisionPath::Fresh);
    }
    Ok(ProvisionPath::Golden)
}

/// The error of a request for access to a VM that was created without it.
pub const POLICY_REFUSED: &'static str = "existing VM was created without --agent-access; mount policy is immutable, so recreate the VM to opt in";

/// Whether a request fits the agent policy that a VM was created with.
pub open spec fn policy_allows(existed: bool, requested: bool, previous: bool) -> bool {
    !(existed && requested && !previous)
}

pub fn validate_agent_access(existed: bool, requested: bool, previous_enabled: bool) -> (r: Result<
    (),
    String,
>)
    ensures
        r is Ok == policy_allows(existed, requested, previous_enabled),
        r matches Err(e) ==> e@ == POLICY_REFUSED@,
{
    if existed && requested && !previous_enabled {
        return Err(POLICY_REFUSED.to_owned());
    }
    Ok(())
}

/// A mount from the command line: its location, and whether it is writable.
pub open spec fn mount_request(arg: Seq<char>) -> (Seq<char>, bool) {
    match text::without_suffix(arg, ":ro"@) {
        Some(location) => (location, false),
        None => (arg, true),
    }
}

pub fn parse_mount(arg: &str) -> (r: Mount)
    ensures
        (r.location@, r.writable) == mount_request(arg@),
{
    match text::strip_suffix(arg, ":ro") {
        Some(location) => Mount { location: location.to_owned(), writable: false },
        None => Mount { location: arg.to_owned(), writable: true },
    }
}

pub open spec fn opt_repo(r: Option<&RepoInfo>) -> Option<RepoView> {
    match r {
        Some(x) => Some(x@),
        None => None,
    }
}

/// The mounts that a VM gets without being asked: the working directory; for a linked worktree
/// the main `.git`, which lies outside of it; and the host's agent directory, but only where
/// access to it was granted.
pub open spec fn automatic_mounts(
    workdir: Seq<char>,
    repo: Option<RepoView>,
    agent_access: bool,
    claude: Seq<char>,
    claude_exists: bool,
) -> Seq<(Seq<char>, bool)> {
    seq![(workdir, true)] + (match repo {
        Some(r) => if r.kind == RepoKind::Worktree {
            seq![(r.host_git, true)]
        } else {
            Seq::empty()
        },
        None => Seq::empty(),
    }) + (if agent_access && claude_exists {
        seq![(claude, true)]
    } else {
        Seq::empty()
    })
}

pub open spec fn has_location(ms: Seq<(Seq<char>, bool)>, location: Seq<char>) -> bool {
    exists|i: int| 0 <= i < ms.len() && (#[trigger] ms[i]).0 == location
}

/// The mounts with the requested ones that have not been mounted yet.
pub open spec fn with_extra(auto: Seq<(Seq<char>, bool)>, extra: Seq<(Seq<char>, bool)>) -> Seq<
    (Seq<char>, bool),
>
    decreases extra.len(),
{
    if extra.len() == 0 {
        auto
    } else {
        let before = with_extra(auto, extra.drop_last());
        if has_location(before, extra.last().0) {
            before
        } else {
            before.push(extra.last())
        }
    }
}

/// The warnings about requested mounts that are ignored.
pub open spec fn ignored_mounts(auto: Seq<(Seq<char>, bool)>, extra: Seq<(Seq<char>, bool)>) -> Seq<
    Seq<char>,
>
    decreases extra.len(),
{
    if extra.len() == 0 {
        Seq::empty()
    } else {
        let before = ignored_mounts(auto, extra.drop_last());
        if has_location(with_extra(auto, extra.drop_last()), extra.last().0) {
            before.push("wtx: ignoring "@ + extra.last().0 + ": already mounted automatically"@)
        } else {
            before
        }
    }
}

pub open spec fn claude_warning(agent_access: bool, claude: Seq<char>, claude_exists: bool) -> Seq<
    Seq<char>,
> {
    if agent_access && !claude_exists {
        seq!["wtx: warning: --agent-access requested but "@ + claude + " was not found"@]
    } else {
        Seq::empty()
    }
}

fn find_location(mounts: &Vec<Mount>, location: &str) -> (r: bool)
    ensures
        r == has_location(mounts_view(mounts@), location@),
{
    let ghost v = mounts_view(mounts@);
    let mut i: usize = 0;
    while i < mounts.len()
        invariant
            i <= mounts@.len(),
            v == mounts_view(mounts@),
            forall|j: int| 0 <= j < i ==> (#[trigger] v[j]).0 != location@,
        decreases mounts@.len() - i,
    {
        assert(v[i as int].0 == mounts@[i as int].location@);
        if text::same(mounts[i].location.as_str(), location) {
            return true;
        }
        i += 1;
    }
    false
}

fn push_mount(mounts: &mut Vec<Mount>, location: &str, writable: bool)
    ensures
        mounts_view(final(mounts)@) == mounts_view(old(mounts)@).push((location@, writable)),
{
    mounts.push(Mount { location: location.to_owned(), writable });
    assert(mounts_view(mounts@) =~= mounts_view(old(mounts)@).push((location@, writable)));
}

/// Collect the mounts of a VM, with the warnings on the way; `extra` holds the requested mounts
/// with their real locations.
pub fn collect_mounts(
    workdir: &str,
    repo: Option<&RepoInfo>,
    agent_access: bool,
    claude: &str,
    claude_exists: bool,
    extra: &Vec<Mount>,
) -> (r: (Vec<Mount>, Vec<String>))
    ensures
        mounts_view(r.0@) == with_extra(
            automatic_mounts(workdir@, opt_repo(repo), agent_access, claude@, claude_exists),
            mounts_view(extra@),
        ),
        text::texts(r.1@) == claude_warning(agent_access, claude@, claude_exists) + ignored_mounts(
            automatic_mounts(workdir@, opt_repo(repo), agent_access, claude@, claude_exists),
            mounts_view(extra@),
        ),
{
    let mut mounts: Vec<Mount> = Vec::new();
    let mut warnings: Vec<String> = Vec::new();
    assert(mounts_view(mounts@) =~= Seq::empty());
    assert(text::texts(warnings@) =~= Seq::empty());
    push_mount(&mut mounts, workdir, true);
    match repo {
        Some(r) => if matches!(r.kind, RepoKind::Worktree) {
            push_mount(&mut mounts, r.host_git.as_str(), true);
        },
        None => {},
    }
    if agent_access {
        if claude_exists {
            push_mount(&mut mounts, claude, true);
        } else {
            text::push_string(
                &mut warnings,
                "wtx: warning: --agent-access requested but ".to_owned().concat(claude).concat(
                    " was not found",
                ),
            );
        }
    }
    let ghost auto = automatic_mounts(
        workdir@,
        opt_repo(repo),
        agent_access,
        claude@,
        claude_exists,
    );
    let ghost head = claude_warning(agent_access, claude@, claude_exists);
    let ghost v = mounts_view(extra@);
    assert(mounts_view(mounts@) =~= auto);
    assert(text::texts(warnings@) =~= head);
    let mut i: usize = 0;
    assert(v.take(0) =~= Seq::empty());
    assert(head + ignored_mounts(auto, v.take(0)) =~= head);
    while i < extra.len()
        invariant
            i <= extra@.len(),
            v == mounts_view(extra@),
            mounts_view(mounts@) == with_extra(auto, v.take(i as int)),
            text::texts(warnings@) == head + ignored_mounts(auto, v.take(i as int)),
        decreases extra@.len() - i,
    {
        assert(v.take(i + 1).drop_last() =~= v.take(i as int));
        assert(v.take(i + 1).last() == v[i as int]);
        let location: &str = extra[i].location.as_str();
        if find_location(&mounts, location) {
            text::push_string(
                &mut warnings,
                "wtx: ignoring ".to_owned().concat(location).concat(
                    ": already mounted automatically",
                ),
            );
            assert(text::texts(warnings@) =~= head + ignored_mounts(auto, v.take(i + 1)));
        } else {
            push_mount(&mut mounts, location, extra[i].writable);
        }
        i += 1;
    }
    assert(v.take(i as int) =~= v);
    (mounts, warnings)
}

/// Each mount is an automatic one or was requested, and the automatic ones come first and stay as
/// they are. So without agent access the host's agent directory is shared only on request.
pub proof fn lemma_mounts(auto: Seq<(Seq<char>, bool)>, extra: Seq<(Seq<char>, bool)>)
    ensures
        with_extra(auto, extra).len() >= auto.len(),
        with_extra(auto, extra).take(auto.len() as int) == auto,
        forall|i: int|
            auto.len() <= i < with_extra(auto, extra).len() ==> extra.contains(
                #[trigger] with_extra(auto, extra)[i],
            ),
        forall|i: int, j: int|
            #![trigger with_extra(auto, extra)[i], with_extra(auto, extra)[j]]
            auto.len() <= j < with_extra(auto, extra).len() && 0 <= i < j ==> with_extra(
                auto,
                extra,
            )[i].0 != with_extra(auto, extra)[j].0,
    decreases extra.len(),
{
    let all = with_extra(auto, extra);
    if extra.len() == 0 {
        assert(auto.take(auto.len() as int) =~= auto);
    } else {
        let f = extra.drop_last();
        lemma_mounts(auto, f);
        let before = with_extra(auto, f);
        assert(all.take(auto.len() as int) =~= before.take(auto.len() as int));
        assert forall|i: int| auto.len() <= i < all.len() implies extra.contains(#[trigger] all[i]) by {
            if i < before.len() {
                assert(all[i] == before[i]);
                let k = choose|k: int| 0 <= k < f.len() && f[k] == before[i];
                assert(extra[k] == all[i]);
            } else {
                assert(extra[extra.len() - 1] == all[i]);
            }
        }
        assert forall|i: int, j: int|
            #![trigger all[i], all[j]]
            auto.len() <= j < all.len() && 0 <= i < j implies all[i].0 != all[j].0 by {
            assert(all[i] == before[i]);
            if j < before.len() {
                assert(all[j] == before[j]);
            } else {
                assert(before[i].0 != extra.last().0);
            }
        }
    }
}

/// A VM always gets its working directory writable, and the main `.git` of a linked worktree too;
/// it gets the agent directory exactly where access was granted and the directory exists.
pub proof fn lemma_automatic_mounts(
    workdir: Seq<char>,
    repo: Option<RepoView>,
    agent_access: bool,
    claude: Seq<char>,
    claude_exists: bool,
)
    ensures
        ({
            let ms = automatic_mounts(workdir, repo, agent_access, claude, claude_exists);
            let linked = repo matches Some(r) && r.kind == RepoKind::Worktree;
            let shared = agent_access && claude_exists;
            &&& ms.len() == 1 + (if linked {
                1int
            } else {
                0
            }) + (if shared {
                1int
            } else {
                0
            })
            &&& ms[0] == (workdir, true)
            &&& linked ==> ms[1] == (repo->0.host_git, true)
            &&& shared ==> ms.last() == (claude, true)
        }),
{
}

/// Every requested mount is there: a location that nothing before it mounts gets its own entry,
/// writable as requested, and of every other one the user is told that it is ignored.
pub proof fn lemma_every_requested_mount_is_there(
    auto: Seq<(Seq<char>, bool)>,
    extra: Seq<(Seq<char>, bool)>,
    k: int,
)
    requires
        0 <= k < extra.len(),
    ensures
        has_location(with_extra(auto, extra), extra[k].0),
        !has_location(auto, extra[k].0) && !has_location(extra.take(k), extra[k].0) ==> with_extra(
            auto,
            extra,
        ).contains(extra[k]),
        has_location(auto, extra[k].0) || has_location(extra.take(k), extra[k].0)
            ==> ignored_mounts(auto, extra).contains(
            "wtx: ignoring "@ + extra[k].0 + ": already mounted automatically"@,
        ),
        with_extra(auto, extra).len() + ignored_mounts(auto, extra).len() == auto.len()
            + extra.len(),
    decreases extra.len(),
{
    let all = with_extra(auto, extra);
    let f = extra.drop_last();
    let before = with_extra(auto, f);
    let told = ignored_mounts(auto, extra);
    let line = "wtx: ignoring "@ + extra[k].0 + ": already mounted automatically"@;
    lemma_mount_count(auto, extra);
    if k < f.len() {
        lemma_every_requested_mount_is_there(auto, f, k);
        assert(f.take(k) =~= extra.take(k));
        let i = choose|i: int| 0 <= i < before.len() && (#[trigger] before[i]).0 == f[k].0;
        assert(all[i].0 == extra[k].0);
        if before.contains(f[k]) {
            let j = choose|j: int| 0 <= j < before.len() && before[j] == f[k];
            assert(all[j] == extra[k]);
        }
        if ignored_mounts(auto, f).contains(line) {
            let j = choose|j: int|
                0 <= j < ignored_mounts(auto, f).len() && ignored_mounts(auto, f)[j] == line;
            assert(told[j] == line);
        }
    } else {
        assert(extra.take(k) =~= f);
        lemma_locations(auto, f, extra[k].0);
        if has_location(before, extra[k].0) {
            assert(told[told.len() - 1] == line);
        } else {
            assert(all[all.len() - 1] == extra[k]);
        }
    }
}

proof fn lemma_mount_count(auto: Seq<(Seq<char>, bool)>, extra: Seq<(Seq<char>, bool)>)
    ensures
        with_extra(auto, extra).len() + ignored_mounts(auto, extra).len() == auto.len()
            + extra.len(),
    decreases extra.len(),
{
    if extra.len() > 0 {
        lemma_mount_count(auto, extra.drop_last());
    }
}

proof fn lemma_locations(
    auto: Seq<(Seq<char>, bool)>,
    extra: Seq<(Seq<char>, bool)>,
    location: Seq<char>,
)
    ensures
        has_location(with_extra(auto, extra), location) <==> has_location(auto, location)
            || has_location(extra, location),
    decreases extra.len(),
{
    let all = with_extra(auto, extra);
    if extra.len() > 0 {
        let f = extra.drop_last();
        let before = with_extra(auto, f);
        lemma_locations(auto, f, location);
        let last = extra.len() - 1;
        if has_location(f, location) {
            let i = choose|i: int| 0 <= i < f.len() && (#[trigger] f[i]).0 == location;
            assert(extra[i].0 == location);
        }
        if has_location(extra, location) {
            let i = choose|i: int| 0 <= i < extra.len() && (#[trigger] extra[i]).0 == location;
            if i < last {
                assert(f[i].0 == location);
            }
        }
        if has_location(before, location) {
            let i = choose|i: int| 0 <= i < before.len() && (#[trigger] before[i]).0 == location;
            assert(all[i].0 == location);
        }
        if extra.last().0 == location {
            assert(extra[last].0 == location);
            if !has_location(before, location) {
                assert(all[all.len() - 1].0 == location);
            }
        }
        if has_location(all, location) {
            let i = choose|i: int| 0 <= i < all.len() && (#[trigger] all[i]).0 == location;
            if i < before.len() {
                assert(before[i].0 == location);
            }
        }
    } else {
        assert(!has_location(extra, location));
    }
}

/// A mount is read-only exactly if `:ro` is written behind it, which is no part of its location.
pub proof fn lemma_mount_request(location: Seq<char>)
    ensures
        mount_request(location + ":ro"@) == (location, false),
        !text::has_suffix(location, ":ro"@) ==> mount_request(location) == (location, true),
{
    let s = location + ":ro"@;
    assert(s.skip(s.len() - ":ro"@.len()) =~= ":ro"@);
    assert(s.take(s.len() - ":ro"@.len()) =~= location);
}

/// Without agent access, the agent directory is not among the automatic mounts of a VM whose
/// working directory and repository lie elsewhere.
pub proof fn lemma_no_credentials_by_default(
    workdir: Seq<char>,
    repo: Option<RepoView>,
    claude: Seq<char>,
    claude_exists: bool,
)
    requires
        workdir != claude,
        repo matches Some(r) ==> r.host_git != claude,
    ensures
        !has_location(automatic_mounts(workdir, repo, false, claude, claude_exists), claude),
{
}

/// Whether a record fails to say anything about agent access.
pub open spec fn lacks_policy(record: Option<json::JsonView>) -> bool {
    match record {
        Some(j) => json::field(j, "agent_access"@) is None,
        None => true,
    }
}

/// Whether a parsed record fails to say anything about agent access.
pub fn record_lacks_policy(record: Option<&json::Json>) -> (r: bool)
    ensures
        r == lacks_policy(json::opt_json(record)),
{
    match record {
        Some(j) => match json::get(j, "agent_access") {
            Some(_) => false,
            None => true,
        },
        None => true,
    }
}

pub open spec fn record_text(raw: Option<Seq<char>>) -> Option<json::JsonView> {
    match raw {
        Some(s) => json::json_text(s),
        None => None,
    }
}

/// The warning about a VM whose record, given as the text of its file, predates the explicit
/// credential policy.
pub fn warn_legacy_agent_policy(name: &str, existed: bool, raw: Option<&str>) -> (r: Option<String>)
    ensures
        r is Some == (existed && lacks_policy(record_text(util::opt_view(raw)))),
        r matches Some(w) ==> w@ == "wtx: warning: "@ + name@
            + " predates explicit credential policy and may still share host credentials; recreate it"@,
{
    if !existed {
        return None;
    }
    let parsed: Option<json::Json> = match raw {
        Some(s) => json::parse(s),
        None => None,
    };
    let lacking: bool = match &parsed {
        Some(j) => record_lacks_policy(Some(j)),
        None => record_lacks_policy(None),
    };
    if lacking {
        Some(
            "wtx: warning: ".to_owned().concat(name).concat(
                " predates explicit credential policy and may still share host credentials; recreate it",
            ),
        )
    } else {
        None
    }
}

/// A VM's provisioning: how it comes to be, and the steps of it.
pub struct Provision {
    pub path: ProvisionPath,
    pub steps: Vec<Step>,
}

pub open spec fn start_step(name: Seq<char>, quiet: bool) -> StepView {
    lima_step(seq!["start"@, name, "--tty=false"@], quiet)
}

/// The steps that clone a VM from another: the source is stopped for a consistent copy if it
/// runs, and then started again in the background while the clone starts.
pub open spec fn seeding(
    src: Seq<char>,
    name: Seq<char>,
    o: UpView,
    ms: Seq<(Seq<char>, bool)>,
    quiet: bool,
    running: bool,
    src_meta: Option<MetaView>,
) -> Seq<StepView> {
    (if running && !quiet {
        seq![
            plan::says(
                "stopping "@ + src
                    + " for a consistent copy (it restarts in the background)..."@,
            ),
        ]
    } else {
        Seq::empty()
    }) + (if running {
        seq![lima_step(seq!["stop"@, src], quiet)]
    } else {
        Seq::empty()
    }) + seq![lima_step(cloning(src, name, o, ms), quiet)] + (if running {
        seq![plan::tries(Verb::LimactlSpawn, seq!["start"@, "--tty=false"@, src])]
    } else {
        Seq::empty()
    }) + seq![
        start_step(name, quiet),
        plan::does(script_verb(quiet), seq![name, cleanup_script(src_meta)]),
    ]
}

/// How a VM comes to be and in which steps, or why it cannot. For the shared base VM, its own
/// preparation comes first; for a seeded VM, its volumes are renamed afterwards.
pub open spec fn provisioning(
    name: Seq<char>,
    o: UpView,
    ms: Seq<(Seq<char>, bool)>,
    yaml: Seq<char>,
    status: Seq<char>,
    quiet: bool,
    src_status: Seq<char>,
    src_meta: Option<MetaView>,
) -> Result<(ProvisionPath, Seq<StepView>), Seq<char>> {
    match path_for(status, o.from is Some, o.no_clone) {
        None => Err("--from can only seed a new VM"@),
        Some(ProvisionPath::Seed) => {
            let src = o.from->0;
            if src == name {
                Err("--from "@ + src + ": cannot seed a VM from itself"@)
            } else if src_status.len() == 0 {
                Err("--from "@ + src + ": no such VM"@)
            } else {
                Ok(
                    (
                        ProvisionPath::Seed,
                        seeding(src, name, o, ms, quiet, src_status == "Running"@, src_meta),
                    ),
                )
            }
        },
        Some(ProvisionPath::Reattach) => Ok(
            (
                ProvisionPath::Reattach,
                if status == "Running"@ {
                    Seq::empty()
                } else {
                    seq![start_step(name, quiet)]
                },
            ),
        ),
        Some(ProvisionPath::Golden) => Ok(
            (
                ProvisionPath::Golden,
                seq![lima_step(cloning(GOLDEN@, name, o, ms), quiet), start_step(name, quiet)],
            ),
        ),
        Some(ProvisionPath::Fresh) => Ok(
            (
                ProvisionPath::Fresh,
                seq![
                    lima_step(seq!["start"@, "--name"@, name, "--tty=false"@, yaml], quiet),
                ],
            ),
        ),
    }
}

fn start_vm(name: &str, quiet: bool) -> (r: Step)
    ensures
        r@ == start_step(name@, quiet),
{
    up_limactl(plan::args3("start", name, "--tty=false"), quiet)
}

fn seed_steps(
    src: &str,
    name: &str,
    o: &UpOpts,
    mounts: &Vec<Mount>,
    quiet: bool,
    running: bool,
    src_meta: Option<&InstanceMeta>,
) -> (r: Vec<Step>)
    ensures
        plan::steps(r@) == seeding(
            src@,
            name@,
            o@,
            mounts_view(mounts@),
            quiet,
            running,
            opt_meta_ref(src_meta),
        ),
{
    let mut p: Vec<Step> = plan::nothing();
    if running {
        if !quiet {
            let line: String = "stopping ".to_owned().concat(src).concat(
                " for a consistent copy (it restarts in the background)...",
            );
            plan::push(&mut p, plan::say(line.as_str()));
        }
        plan::push(&mut p, up_limactl(plan::args2("stop", src), quiet));
    }
    plan::push(&mut p, up_limactl(clone_args(src, name, o, mounts), quiet));
    if running {
        plan::push(
            &mut p,
            plan::attempt(Verb::LimactlSpawn, plan::args3("start", "--tty=false", src)),
        );
    }
    plan::push(&mut p, start_vm(name, quiet));
    let script: String = seed_cleanup_script(src_meta);
    plan::push(&mut p, script_step(name, script.as_str(), quiet));
    assert(plan::steps(p@) =~= seeding(
        src@,
        name@,
        o@,
        mounts_view(mounts@),
        quiet,
        running,
        opt_meta_ref(src_meta),
    ));
    p
}

/// Decide how a VM comes to be and list the steps; `src_status` and `src_meta` are the status and
/// the record of the VM that `--from` names.
pub fn provision_instance(
    name: &str,
    o: &UpOpts,
    mounts: &Vec<Mount>,
    yaml: &str,
    status: &str,
    quiet: bool,
    src_status: &str,
    src_meta: Option<&InstanceMeta>,
) -> (r: Result<Provision, String>)
    ensures
        match provisioning(
            name@,
            o@,
            mounts_view(mounts@),
            yaml@,
            status@,
            quiet,
            src_status@,
            opt_meta_ref(src_meta),
        ) {
            Ok((path, steps)) => r matches Ok(x) && x.path == path && plan::steps(x.steps@)
                == steps,
            Err(e) => r matches Err(x) && x@ == e,
        },
{
    let has_seed: bool = o.from.is_some();
    let path: ProvisionPath = match provision_path(status, has_seed, o.no_clone) {
        Ok(p) => p,
        Err(e) => {
            return Err(e);
        },
    };
    match path {
        ProvisionPath::Seed => {
            match &o.from {
                Some(from) => {
                    let src: &str = from.as_str();
                    if text::same(src, name) {
                        return Err(
                            "--from ".to_owned().concat(src).concat(
                                ": cannot seed a VM from itself",
                            ),
                        );
                    }
                    if src_status.is_empty() {
                        return Err("--from ".to_owned().concat(src).concat(": no such VM"));
                    }
                    let running: bool = text::same(src_status, "Running");
                    let steps: Vec<Step> = seed_steps(
                        src,
                        name,
                        o,
                        mounts,
                        quiet,
                        running,
                        src_meta,
                    );
                    Ok(Provision { path, steps })
                },
                None => Err("--from can only seed a new VM".to_owned()),
            }
        },
        ProvisionPath::Reattach => {
            if text::same(status, "Running") {
                Ok(Provision { path, steps: plan::nothing() })
            } else {
                Ok(Provision { path, steps: plan::one(start_vm(name, quiet)) })
            }
        },
        ProvisionPath::Golden => {
            let mut steps: Vec<Step> = plan::nothing();
            plan::push(&mut steps, up_limactl(clone_args(GOLDEN, name, o, mounts), quiet));
            plan::push(&mut steps, start_vm(name, quiet));
            assert(plan::steps(steps@) =~= seq![
                lima_step(cloning(GOLDEN@, name@, o@, mounts_view(mounts@)), quiet),
                start_step(name@, quiet),
            ]);
            Ok(Provision { path, steps })
        },
        ProvisionPath::Fresh => {
            let s: Step = up_limactl(
                plan::args5("start", "--name", name, "--tty=false", yaml),
                quiet,
            );
            Ok(Provision { path, steps: plan::one(s) })
        },
    }
}

/// Whether a step hands arguments to `limactl`, and its failure ends the plan.
pub open spec fn runs_limactl(s: StepView, args: Seq<Seq<char>>, quiet: bool) -> bool {
    &&& s.args == args
    &&& quiet ==> s.verb == Verb::LimactlCapture && s.on_fail == OnFail::AbortAs
    &&& !quiet ==> s.verb == Verb::Limactl && s.on_fail == OnFail::Abort
}

/// A VM that exists is only started, and only if it does not run. A new one is cloned from the
/// shared base VM and then started, or with `--no-clone` made from its configuration. Another VM
/// seeds a new VM only, and not itself.
pub proof fn lemma_how_a_vm_comes_to_be(
    name: Seq<char>,
    o: UpView,
    ms: Seq<(Seq<char>, bool)>,
    yaml: Seq<char>,
    status: Seq<char>,
    quiet: bool,
    src_status: Seq<char>,
    src_meta: Option<MetaView>,
)
    ensures
        ({
            let p = provisioning(name, o, ms, yaml, status, quiet, src_status, src_meta);
            let exists = status.len() > 0;
            &&& o.from is None && exists ==> p is Ok && {
                &&& p->Ok_0.0 == ProvisionPath::Reattach
                &&& status == "Running"@ ==> p->Ok_0.1.len() == 0
                &&& status != "Running"@ ==> p->Ok_0.1.len() == 1 && runs_limactl(
                    p->Ok_0.1[0],
                    seq!["start"@, name, "--tty=false"@],
                    quiet,
                )
            }
            &&& o.from is None && !exists && !o.no_clone ==> p is Ok && {
                &&& p->Ok_0.0 == ProvisionPath::Golden
                &&& p->Ok_0.1.len() == 2
                &&& runs_limactl(p->Ok_0.1[0], cloning("wtx-golden"@, name, o, ms), quiet)
                &&& runs_limactl(p->Ok_0.1[1], seq!["start"@, name, "--tty=false"@], quiet)
            }
            &&& o.from is None && !exists && o.no_clone ==> p is Ok && {
                &&& p->Ok_0.0 == ProvisionPath::Fresh
                &&& p->Ok_0.1.len() == 1
                &&& runs_limactl(
                    p->Ok_0.1[0],
                    seq!["start"@, "--name"@, name, "--tty=false"@, yaml],
                    quiet,
                )
            }
            &&& o.from matches Some(src) ==> {
                &&& exists || src == name || src_status.len() == 0 ==> p is Err
                &&& !exists && src != name && src_status.len() > 0 ==> p is Ok && p->Ok_0.0
                    == ProvisionPath::Seed && p->Ok_0.1 == seeding(
                    src,
                    name,
                    o,
                    ms,
                    quiet,
                    src_status == "Running"@,
                    src_meta,
                )
            }
        }),
{
}

/// A seeded VM is cloned from a source at rest: one that runs is stopped right before the copy and
/// started again right behind it, which the plan does not depend on, and one that does not run is
/// left alone. The clone is started and cleaned up last.
pub proof fn lemma_source_rests_while_it_is_copied(
    src: Seq<char>,
    name: Seq<char>,
    o: UpView,
    ms: Seq<(Seq<char>, bool)>,
    quiet: bool,
    running: bool,
    src_meta: Option<MetaView>,
)
    ensures
        ({
            let s = seeding(src, name, o, ms, quiet, running, src_meta);
            let n = s.len() as int;
            let c: int = if running {
                if quiet {
                    1
                } else {
                    2
                }
            } else {
                0
            };
            &&& runs_limactl(s[c], cloning(src, name, o, ms), quiet)
            &&& running ==> n == c + 4
            &&& running ==> runs_limactl(s[c - 1], seq!["stop"@, src], quiet)
            &&& running ==> s[c + 1].verb == Verb::LimactlSpawn && s[c + 1].on_fail
                == OnFail::Ignore
            &&& running ==> s[c + 1].args == seq!["start"@, "--tty=false"@, src]
            &&& running && !quiet ==> s[0].verb == Verb::Say
            &&& !running ==> n == 3
            &&& runs_limactl(s[n - 2], seq!["start"@, name, "--tty=false"@], quiet)
            &&& s[n - 1].args.len() == 2 && s[n - 1].args[0] == name
            &&& s[n - 1].on_fail == OnFail::Abort
            &&& src_meta matches Some(m) ==> m.main_repo.len() > 0 ==> text::has_prefix(
                s[n - 1].args[1],
                "set -eu\nOLDGIT="@ + util::quoted(m.main_repo + "/.git"@),
            )
        }),
{
    let s = seeding(src, name, o, ms, quiet, running, src_meta);
    let script = cleanup_script(src_meta);
    match src_meta {
        Some(m) => if m.main_repo.len() > 0 {
            let p = "set -eu\nOLDGIT="@ + util::quoted(m.main_repo + "/.git"@);
            assert(script =~= p + SEED_CLEANUP@);
            assert(script.take(p.len() as int) =~= p);
        },
        None => {},
    }
    assert(s.last().args =~= seq![name, script]);
}

/// The record of a VM after `wtx up`: simulator and ports are kept, and an existing VM keeps the
/// agent policy that it was created with.
pub open spec fn rebuilt(
    workdir: Seq<char>,
    repo: Option<RepoView>,
    o: UpView,
    existed: bool,
    previous: MetaView,
) -> MetaView {
    MetaView {
        workdir,
        main_repo: match repo {
            Some(r) => r.host_repo,
            None => Seq::empty(),
        },
        branch: match repo {
            Some(r) => r.branch,
            None => Seq::empty(),
        },
        seeded_from: match o.from {
            Some(f) => f,
            None => previous.seeded_from,
        },
        sim_udid: previous.sim_udid,
        sim_devicetype: previous.sim_devicetype,
        ports: previous.ports,
        agent_access: if existed {
            previous.agent_access
        } else {
            o.agent_access
        },
    }
}

pub fn rebuild_meta(
    workdir: &str,
    repo: Option<&RepoInfo>,
    o: &UpOpts,
    existed: bool,
    previous: InstanceMeta,
) -> (r: InstanceMeta)
    ensures
        r@ == rebuilt(workdir@, opt_repo(repo), o@, existed, previous@),
        well_formed(previous@) ==> well_formed(r@),
{
    let main_repo: String = match repo {
        Some(r) => r.host_repo.clone(),
        None => text::empty(),
    };
    let branch: String = match repo {
        Some(r) => r.branch.clone(),
        None => text::empty(),
    };
    let seeded_from: String = match &o.from {
        Some(f) => f.clone(),
        None => previous.seeded_from,
    };
    InstanceMeta {
        workdir: workdir.to_owned(),
        main_repo,
        branch,
        seeded_from,
        sim_udid: previous.sim_udid,
        sim_devicetype: previous.sim_devicetype,
        ports: previous.ports,
        agent_access: if existed {
            previous.agent_access
        } else {
            o.agent_access
        },
    }
}

/// The credential policy of an existing VM never changes: whatever is requested, its record says
/// afterwards what it said before, and a request for more is refused.
pub proof fn lemma_policy_is_immutable(
    workdir: Seq<char>,
    repo: Option<RepoView>,
    o: UpView,
    previous: MetaView,
)
    ensures
        rebuilt(workdir, repo, o, true, previous).agent_access == previous.agent_access,
        o.agent_access && !previous.agent_access ==> !policy_allows(
            true,
            o.agent_access,
            previous.agent_access,
        ),
        rebuilt(workdir, repo, o, true, previous).ports == previous.ports,
        rebuilt(workdir, repo, o, true, previous).sim_udid == previous.sim_udid,
{
}

/// The record of a VM names the directory that it serves now, its repository and its branch, and
/// nothing of a repository where there is none; the source of the VM stays recorded, and a new VM
/// gets the access that was asked for.
pub proof fn lemma_record_tells_what_is_served(
    workdir: Seq<char>,
    repo: Option<RepoView>,
    o: UpView,
    existed: bool,
    previous: MetaView,
)
    ensures
        ({
            let m = rebuilt(workdir, repo, o, existed, previous);
            &&& m.workdir == workdir
            &&& repo matches Some(r) ==> m.main_repo == r.host_repo && m.branch == r.branch
            &&& repo is None ==> m.main_repo.len() == 0 && m.branch.len() == 0
            &&& o.from matches Some(src) ==> m.seeded_from == src
            &&& o.from is None ==> m.seeded_from == previous.seeded_from
            &&& m.sim_devicetype == previous.sim_devicetype
            &&& !existed ==> m.agent_access == o.agent_access
            &&& !existed ==> m.ports == previous.ports && m.sim_udid == previous.sim_udid
        }),
{
}

/// The command that looks for the git overlay of older versions in a VM. Only a VM that existed
/// before and serves a repository can have one.
pub open spec fn overlay_command(repo: Option<RepoView>, reattached: bool) -> Option<Seq<char>> {
    match repo {
        Some(r) => if reattached {
            Some(
                "test -e "@ + util::quoted(r.host_git) + "/.wtx-local && echo legacy || true"@,
            )
        } else {
            None
        },
        None => None,
    }
}

pub fn legacy_overlay_command(repo: Option<&RepoInfo>, reattached: bool) -> (r: Option<String>)
    ensures
        opt_text(r) == overlay_command(opt_repo(repo), reattached),
{
    match repo {
        Some(x) => if reattached {
            let q: String = util::shq(x.host_git.as_str());
            Some(
                "test -e ".to_owned().concat(q.as_str()).concat(
                    "/.wtx-local && echo legacy || true",
                ),
            )
        } else {
            None
        },
        None => None,
    }
}

/// The warning about a VM whose commits do not reach the host, from what the command printed.
pub fn warn_legacy_git_overlay(name: &str, out: &str) -> (r: Option<String>)
    ensures
        r is Some == text::has_substring(out@, "legacy"@),
        r matches Some(w) ==> w@ == "wtx: warning: "@ + name@
            + " was created by an older wtx with isolated git; commits made inside it do NOT reach the host. Recreate it: wtx rm "@
            + name@ + " && wtx up ..."@,
{
    if text::contains(out, "legacy") {
        Some(
            "wtx: warning: ".to_owned().concat(name).concat(
                " was created by an older wtx with isolated git; commits made inside it do NOT reach the host. Recreate it: wtx rm ",
            ).concat(name).concat(" && wtx up ..."),
        )
    } else {
        None
    }
}

/// The script that links the mounted agent directory into a VM's home directory.
pub open spec fn link_script(claude: Seq<char>, agent: Seq<char>) -> Seq<char> {
    "set -eu\nH="@ + util::quoted(claude) + "\n[ -d \"$H\" ] || exit 0\nif [ ! -L \"$HOME/"@
        + creds::agent_dir(agent) + "\" ]; then rm -rf \"$HOME/"@ + creds::agent_dir(agent)
        + "\"; ln -s \"$H\" \"$HOME/"@ + creds::agent_dir(agent) + "\"; fi"@
}

/// The steps that link the agent directory inside a VM that has access to it.
pub open spec fn linking(
    name: Seq<char>,
    m: MetaView,
    agent: Seq<char>,
    claude: Seq<char>,
    claude_exists: bool,
) -> Seq<StepView> {
    if m.agent_access && claude_exists {
        seq![
            plan::noted(
                Verb::Script,
                seq![name, link_script(claude, agent)],
                OnFail::Warn,
                "wtx: warning: could not link ~/"@ + creds::agent_dir(agent) + " in the VM"@,
            ),
        ]
    } else {
        Seq::empty()
    }
}

/// The agent directory is linked only in a VM that has access to it and where the host has one; that
/// it could not be linked is told and no more. Nobody hears of a missing directory without asking
/// for it.
pub proof fn lemma_agent_directory_is_linked(
    name: Seq<char>,
    m: MetaView,
    agent: Seq<char>,
    claude: Seq<char>,
    claude_exists: bool,
)
    ensures
        m.agent_access && claude_exists ==> {
            let s = linking(name, m, agent, claude, claude_exists);
            &&& s.len() == 1
            &&& s[0].verb == Verb::Script && s[0].on_fail == OnFail::Warn
            &&& s[0].args.len() == 2 && s[0].args[0] == name
            &&& text::has_prefix(s[0].args[1], "set -eu\nH="@ + util::quoted(claude))
            &&& text::has_suffix(
                s[0].args[1],
                "ln -s \"$H\" \"$HOME/"@ + ("."@ + agent) + "\"; fi"@,
            )
        },
        !m.agent_access || !claude_exists ==> linking(
            name,
            m,
            agent,
            claude,
            claude_exists,
        ).len() == 0,
        claude_warning(true, claude, false).len() == 1,
        claude_warning(true, claude, true).len() == 0,
        claude_warning(false, claude, claude_exists).len() == 0,
{
    let t = link_script(claude, agent);
    let p = "set -eu\nH="@ + util::quoted(claude);
    assert(t.take(p.len() as int) =~= p);
    reveal_strlit("\"; ln -s \"$H\" \"$HOME/");
    reveal_strlit("\"; ");
    reveal_strlit("ln -s \"$H\" \"$HOME/");
    assert("\"; ln -s \"$H\" \"$HOME/"@ =~= "\"; "@ + "ln -s \"$H\" \"$HOME/"@);
    let q = "ln -s \"$H\" \"$HOME/"@ + ("."@ + agent) + "\"; fi"@;
    assert(t.skip(t.len() - q.len()) =~= q);
}

/// An old overlay is looked for only in a VM that existed and serves a repository, at that
/// repository's own `.git`; a record says nothing of agent access only if it lacks the member.
pub proof fn lemma_overlay_is_looked_for(r: RepoView, j: json::JsonView)
    ensures
        overlay_command(Some(r), true) == Some(
            "test -e "@ + util::quoted(r.host_git) + "/.wtx-local && echo legacy || true"@,
        ),
        overlay_command(Some(r), false) is None,
        overlay_command(None, true) is None,
        lacks_policy(None),
        lacks_policy(Some(j)) <==> json::field(j, "agent_access"@) is None,
{
}

/// Link the agent directory inside a VM that has access to it.
pub fn link_agent_credentials(
    name: &str,
    meta: &InstanceMeta,
    agent: &str,
    claude: &str,
    claude_exists: bool,
) -> (r: Vec<Step>)
    ensures
        plan::steps(r@) == linking(name@, meta@, agent@, claude@, claude_exists),
{
    if !meta.agent_access || !claude_exists {
        return plan::nothing();
    }
    let q: String = util::shq(claude);
    let dir: String = creds::agent_dir_name(agent);
    let script: String = "set -eu\nH=".to_owned().concat(q.as_str()).concat(
        "\n[ -d \"$H\" ] || exit 0\nif [ ! -L \"$HOME/",
    ).concat(dir.as_str()).concat("\" ]; then rm -rf \"$HOME/").concat(dir.as_str()).concat(
        "\"; ln -s \"$H\" \"$HOME/",
    ).concat(dir.as_str()).concat("\"; fi");
    let note: String = "wtx: warning: could not link ~/".to_owned().concat(dir.as_str()).concat(
        " in the VM",
    );
    plan::one(
        plan::with_note(
            Verb::Script,
            plan::args2(name, script.as_str()),
            OnFail::Warn,
            note.as_str(),
        ),
    )
}

/// The script that gives a VM the host's git identity.
pub open spec fn identity_script(git_name: Seq<char>, git_email: Seq<char>) -> Seq<char> {
    "set -eu\ngit config --global --replace-all user.name "@ + util::quoted(git_name)
        + "\ngit config --global --replace-all user.email "@ + util::quoted(git_email) + "\n"@
}

/// Apply the host's git identity to a VM, whichever way it came to be.
pub fn apply_host_git_identity(name: &str, git_name: &str, git_email: &str, quiet: bool) -> (r: Step)
    ensures
        r@ == plan::does(script_verb(quiet), seq![name@, identity_script(git_name@, git_email@)]),
{
    let n: String = util::shq(git_name);
    let e: String = util::shq(git_email);
    let script: String = "set -eu\ngit config --global --replace-all user.name ".to_owned().concat(
        n.as_str(),
    ).concat("\ngit config --global --replace-all user.email ").concat(e.as_str()).concat("\n");
    script_step(name, script.as_str(), quiet)
}

/// The simulator that a new VM gets as a clone: that of its source, if it has none of its own.
pub open spec fn simulator_source(meta: MetaView, src: Option<MetaView>) -> Option<Seq<char>> {
    match src {
        Some(s) => if meta.sim_udid.len() == 0 && s.sim_udid.len() != 0 {
            Some(s.sim_udid)
        } else {
            None
        },
        None => None,
    }
}

/// A VM without a device gets a clone of its source's, if that has one; one that has a device keeps
/// it.
pub proof fn lemma_simulator_source(m: MetaView, s: MetaView)
    ensures
        m.sim_udid.len() == 0 && s.sim_udid.len() > 0 ==> simulator_source(m, Some(s)) == Some(
            s.sim_udid,
        ),
        m.sim_udid.len() > 0 || s.sim_udid.len() == 0 ==> simulator_source(m, Some(s)) is None,
        simulator_source(m, None) is None,
{
}

pub fn simulator_to_clone(meta: &InstanceMeta, src: Option<&InstanceMeta>) -> (r: Option<String>)
    ensures
        r is Some == simulator_source(meta@, opt_meta_ref(src)) is Some,
        r matches Some(u) ==> simulator_source(meta@, opt_meta_ref(src)) == Some(u@),
{
    match src {
        Some(s) => if meta.sim_udid.as_str().is_empty() && !s.sim_udid.as_str().is_empty() {
            Some(s.sim_udid.clone())
        } else {
            None
        },
        None => None,
    }
}

/// Record a cloned simulator, with the device type of the source's and with inherited ports.
pub fn adopt_simulator(
    meta: InstanceMeta,
    src: &InstanceMeta,
    udid: &str,
    ports: Vec<(String, PortMap)>,
) -> (r: InstanceMeta)
    ensures
        r@ == (MetaView {
            sim_udid: udid@,
            sim_devicetype: src@.sim_devicetype,
            ports: table::rows(ports@),
            ..meta@
        }),
        table::sorted(table::rows(ports@)) ==> well_formed(r@),
{
    InstanceMeta {
        workdir: meta.workdir,
        main_repo: meta.main_repo,
        branch: meta.branch,
        seeded_from: meta.seeded_from,
        sim_udid: udid.to_owned(),
        sim_devicetype: src.sim_devicetype.clone(),
        ports,
        agent_access: meta.agent_access,
    }
}

/// Whether `wtx up` is asked for a simulator.
pub fn wants_simulator(o: &UpOpts) -> (r: bool)
    ensures
        r == (o.sim || o@.sim_device is Some),
{
    o.sim || o.sim_device.is_some()
}

pub fn workdir_missing(workdir: &str) -> (r: String)
    ensures
        r@ == "workdir not found: "@ + workdir@,
{
    "workdir not found: ".to_owned().concat(workdir)
}

/// What the user hears when a VM is up.
pub fn up_ready(name: &str) -> (r: String)
    ensures
        r@ == "ready:\n  wtx shell "@ + name@ + "\n  wtx rm "@ + name@,
{
    "ready:\n  wtx shell ".to_owned().concat(name).concat("\n  wtx rm ").concat(name)
}

/// The steps that stop a VM together with its forwards and its simulator. A simulator that does
/// not shut down does not keep the VM from stopping.
pub open spec fn stopping(
    name: Seq<char>,
    meta: Option<MetaView>,
    files: Seq<Seq<char>>,
    quiet: bool,
) -> Seq<StepView> {
    crate::sshx::closing_all(name, files) + (match meta {
        Some(m) => if m.sim_udid.len() == 0 {
            Seq::empty()
        } else {
            let args = seq!["simctl"@, "shutdown"@, m.sim_udid];
            if quiet {
                seq![plan::tries(Verb::Xcrun, args)]
            } else {
                seq![
                    plan::noted(
                        Verb::Xcrun,
                        args,
                        OnFail::Warn,
                        "wtx: warning: simulator "@ + m.sim_udid + " not shut down"@,
                    ),
                ]
            }
        },
        None => Seq::empty(),
    }) + seq![plan::does(Verb::LimactlCapture, seq!["stop"@, name])]
}

/// Stopping a VM ends with the VM itself, whose failure is told; before it go its forwards and the
/// device of its record, which cannot keep it from stopping.
pub proof fn lemma_stopping_ends_with_the_vm(
    name: Seq<char>,
    meta: Option<MetaView>,
    files: Seq<Seq<char>>,
    quiet: bool,
)
    ensures
        ({
            let s = stopping(name, meta, files, quiet);
            let k = crate::sshx::closing_all(name, files).len() as int;
            let device = meta matches Some(m) && m.sim_udid.len() > 0;
            &&& s.take(k) == crate::sshx::closing_all(name, files)
            &&& s.len() == k + 1 + (if device {
                1int
            } else {
                0
            })
            &&& s.last().verb == Verb::LimactlCapture && s.last().on_fail == OnFail::Abort
            &&& s.last().args == seq!["stop"@, name]
            &&& device ==> s[k].verb == Verb::Xcrun && s[k].args == seq![
                "simctl"@,
                "shutdown"@,
                meta->0.sim_udid,
            ]
            &&& device && quiet ==> s[k].on_fail == OnFail::Ignore
            &&& device && !quiet ==> s[k].on_fail == OnFail::Warn
        }),
{
    let s = stopping(name, meta, files, quiet);
    let c = crate::sshx::closing_all(name, files);
    assert(s.take(c.len() as int) =~= c);
}

pub fn stop(name: &str, meta: Option<&InstanceMeta>, files: &Vec<String>, quiet: bool) -> (r: Vec<
    Step,
>)
    ensures
        plan::steps(r@) == stopping(name@, opt_meta_ref(meta), text::texts(files@), quiet),
{
    let mut p: Vec<Step> = crate::sshx::close_all_forwards(name, files);
    match meta {
        Some(m) => {
            let udid: &str = m.sim_udid.as_str();
            if !udid.is_empty() {
                let args: Vec<String> = plan::args3("simctl", "shutdown", udid);
                if quiet {
                    plan::push(&mut p, plan::attempt(Verb::Xcrun, args));
                } else {
                    let note: String = "wtx: warning: simulator ".to_owned().concat(udid).concat(
                        " not shut down",
                    );
                    plan::push(
                        &mut p,
                        plan::with_note(Verb::Xcrun, args, OnFail::Warn, note.as_str()),
                    );
                }
            }
        },
        None => {},
    }
    plan::push(&mut p, plan::must(Verb::LimactlCapture, plan::args2("stop", name)));
    assert(plan::steps(p@) =~= stopping(name@, opt_meta_ref(meta), text::texts(files@), quiet));
    p
}

// ---------------------------------------------------------------------------
// Names
// ---------------------------------------------------------------------------

pub open spec fn name_char(c: char) -> bool {
    text::is_alnum(c) || c == '-' || c == '_' || c == '.'
}

pub open spec fn clean_char(c: char) -> char {
    if name_char(c) {
        c
    } else {
        '-'
    }
}

pub open spec fn cleaned(s: Seq<char>) -> Seq<char> {
    Seq::new(s.len(), |i: int| clean_char(s[i]))
}

/// The VM name for a directory: its own name with `-` for every character that Lima does not
/// take, without anything but letters and digits at its ends.
pub open spec fn vm_name(dir: Seq<char>) -> Seq<char> {
    text::trimmed(cleaned(dir_name(dir)), text::Trim::NonAlnum)
}

/// Derive a VM name from a directory.
pub fn derive_name(dir: &str) -> (r: Result<String, String>)
    ensures
        if vm_name(dir@).len() == 0 {
            r matches Err(e) && e@ == "cannot derive a VM name from "@ + dir@
                + "; pass NAME explicitly"@
        } else {
            r matches Ok(n) && n@ == vm_name(dir@)
        },
{
    let base: String = match path::file_name(dir) {
        Some(n) => n,
        None => text::empty(),
    };
    let mut out: String = text::empty();
    for c in it: base.as_str().chars()
        invariant
            it.seq() == base@,
            base@ == dir_name(dir@),
            out@ == cleaned(base@).take(it.index() as int),
    {
        let ghost k = it.index() as int;
        let x: char = if text::char_is_alnum(c) || c == '-' || c == '_' || c == '.' {
            c
        } else {
            '-'
        };
        out.push(x);
        assert(cleaned(base@).take(k + 1) =~= cleaned(base@).take(k).push(x));
    }
    assert(cleaned(base@).take(base@.len() as int) =~= cleaned(base@));
    let name: &str = text::trim_kind(out.as_str(), &text::Trim::NonAlnum);
    if name.is_empty() {
        return Err(
            "cannot derive a VM name from ".to_owned().concat(dir).concat(
                "; pass NAME explicitly",
            ),
        );
    }
    Ok(name.to_owned())
}

/// A derived name holds only characters that Lima takes and begins and ends with a letter or a
/// digit; and deriving a name from it again changes nothing.
pub proof fn lemma_derived_name(dir: Seq<char>)
    requires
        vm_name(dir).len() > 0,
    ensures
        forall|i: int| 0 <= i < vm_name(dir).len() ==> name_char(#[trigger] vm_name(dir)[i]),
        text::is_alnum(vm_name(dir)[0]),
        text::is_alnum(vm_name(dir).last()),
        vm_name(vm_name(dir)) == vm_name(dir),
{
    let s = cleaned(dir_name(dir));
    let n = vm_name(dir);
    text::lemma_trimmed(s, text::Trim::NonAlnum);
    assert forall|i: int| 0 <= i < n.len() implies name_char(#[trigger] n[i]) by {
        assert(n.contains(n[i]));
        let j = choose|j: int| 0 <= j < s.len() && s[j] == n[i];
        assert(s[j] == clean_char(dir_name(dir)[j]));
    }
    reveal_strlit("/");
    reveal_strlit(".");
    reveal_strlit("..");
    assert(path::tail_trimmed(n) == n);
    assert forall|i: int| !text::stands_at(n, "/"@, i) by {
        if text::stands_at(n, "/"@, i) {
            assert(n.subrange(i, i + 1)[0] == n[i]);
            assert(name_char(n[i]));
        }
    }
    lemma_rfind_none(n, "/"@, n.len() as int);
    assert(path::last_part(n) == n);
    assert(n != "."@ && n != ".."@);
    assert(dir_name(n) == n);
    assert(cleaned(n) =~= n);
    text::lemma_trimmed_same(n, text::Trim::NonAlnum);
}

proof fn lemma_rfind_none(s: Seq<char>, p: Seq<char>, i: int)
    requires
        i >= -1,
        forall|j: int| !text::stands_at(s, p, j),
    ensures
        text::rfind(s, p, i) == -1,
    decreases i + 1,
{
    if i >= 0 {
        lemma_rfind_none(s, p, i - 1);
    }
}

/// The VM of a directory is called after the directory, whatever is above it: a name that Lima
/// takes is taken as it is, and each other character of it becomes a `-`.
pub proof fn lemma_vm_is_named_after_its_directory(dir: Seq<char>, base: Seq<char>)
    requires
        path::tidy(dir),
        path::entry_name(base),
        text::is_alnum(base[0]),
        text::is_alnum(base.last()),
    ensures
        vm_name(dir + "/"@ + base).len() == base.len(),
        forall|i: int|
            0 <= i < base.len() ==> #[trigger] vm_name(dir + "/"@ + base)[i] == (if text::is_alnum(
                base[i],
            ) || base[i] == '-' || base[i] == '_' || base[i] == '.' {
                base[i]
            } else {
                '-'
            }),
{
    path::lemma_entry_of_directory(dir, base);
    let s = cleaned(base);
    assert(s[0] == base[0]);
    assert(s.last() == base.last());
    text::lemma_trimmed_same(s, text::Trim::NonAlnum);
}

/// Whether a name is free for a directory: no VM of that name serves another one.
pub open spec fn name_fits(record: Option<MetaView>, dir: Seq<char>) -> bool {
    match record {
        Some(m) => m.workdir.len() == 0 || path::same(m.workdir, dir),
        None => true,
    }
}

pub open spec fn name_taken(name: Seq<char>, workdir: Seq<char>) -> Seq<char> {
    "VM "@ + name + " already exists for "@ + workdir + "; pass a different NAME"@
}

/// Fail if a VM of the name serves another directory. To reattach it silently would overwrite the
/// recorded directory while its mounts still point at the old one.
pub fn ensure_name_matches(name: &str, record: Option<&InstanceMeta>, dir: &str) -> (r: Result<
    (),
    String,
>)
    ensures
        r is Ok == name_fits(opt_meta_ref(record), dir@),
        r matches Err(e) ==> record matches Some(m) && e@ == name_taken(name@, m@.workdir),
{
    match record {
        Some(m) => {
            let workdir: &str = m.workdir.as_str();
            if !workdir.is_empty() && !path::same_path(workdir, dir) {
                return Err(
                    "VM ".to_owned().concat(name).concat(" already exists for ").concat(
                        workdir,
                    ).concat("; pass a different NAME"),
                );
            }
            Ok(())
        },
        None => Ok(()),
    }
}

/// The directory of a new worktree: the given one, seen from the current directory, or one beside
/// the main repository that is named after it and the branch.
pub open spec fn worktree_dir(
    cwd: Seq<char>,
    dir: Option<Seq<char>>,
    main_repo: Seq<char>,
    branch: Seq<char>,
) -> Seq<char> {
    match dir {
        Some(d) => path::below(cwd, d),
        None => path::below(
            match path::parent_of(main_repo) {
                Some(p) => p,
                None => "."@,
            },
            dir_name(main_repo) + "-"@ + text::replaced(branch, "/"@, "-"@),
        ),
    }
}

/// A new worktree stands beside its repository, under the repository's name, a `-` and the branch
/// with a `-` for each `/`, unless a directory was given.
pub proof fn lemma_worktree_stands_beside_its_repository(
    cwd: Seq<char>,
    given: Seq<char>,
    dir: Seq<char>,
    base: Seq<char>,
    branch: Seq<char>,
)
    requires
        path::tidy(dir),
        path::entry_name(base),
    ensures
        ({
            let w = worktree_dir(cwd, None, dir + "/"@ + base, branch);
            let p = dir + "/"@ + base + "-"@;
            &&& w.len() == p.len() + branch.len()
            &&& w.take(p.len() as int) == p
            &&& forall|i: int|
                0 <= i < branch.len() ==> #[trigger] w[p.len() + i] == (if branch[i] == '/' {
                    '-'
                } else {
                    branch[i]
                })
        }),
        path::absolute(given) ==> worktree_dir(cwd, Some(given), dir + "/"@ + base, branch)
            == given,
        !path::absolute(given) && path::tidy(cwd) ==> worktree_dir(
            cwd,
            Some(given),
            dir + "/"@ + base,
            branch,
        ) == cwd + "/"@ + given,
{
    reveal_strlit("/");
    reveal_strlit("-");
    path::lemma_entry_of_directory(dir, base);
    assert("/"@ =~= seq!['/']);
    assert("-"@ =~= seq!['-']);
    text::lemma_replaced_character(branch, '/', '-');
    let b = text::replaced(branch, "/"@, "-"@);
    let entry = base + "-"@ + b;
    assert(entry[0] == base[0]);
    if base[0] == '/' {
        assert(base.contains('/'));
    }
    let p = dir + "/"@ + base + "-"@;
    let w = worktree_dir(cwd, None, dir + "/"@ + base, branch);
    assert(w =~= p + b);
    assert(w.take(p.len() as int) =~= p);
    assert forall|i: int| 0 <= i < branch.len() implies #[trigger] w[p.len() + i] == (if branch[i]
        == '/' {
        '-'
    } else {
        branch[i]
    }) by {
        assert(w[p.len() + i] == b[i]);
    }
}

pub fn new_worktree_dir(cwd: &str, dir: Option<&str>, main_repo: &str, branch: &str) -> (r: String)
    ensures
        r@ == worktree_dir(cwd@, util::opt_view(dir), main_repo@, branch@),
{
    match dir {
        Some(d) => path::join(cwd, d),
        None => {
            proof {
                reveal_strlit("/");
            }
            let base: String = match path::file_name(main_repo) {
                Some(n) => n,
                None => text::empty(),
            };
            let parent: String = match path::parent(main_repo) {
                Some(p) => p,
                None => ".".to_owned(),
            };
            let b: String = text::replace(branch, "/", "-");
            let entry: String = base.concat("-").concat(b.as_str());
            path::join(parent.as_str(), entry.as_str())
        },
    }
}

/// The arguments of `git` that add a worktree, with a new branch if it does not exist.
pub fn worktree_add_args(branch_exists: bool, dir: &str, branch: &str) -> (r: Vec<String>)
    ensures
        text::texts(r@) == (if branch_exists {
            seq!["worktree"@, "add"@, dir@, branch@]
        } else {
            seq!["worktree"@, "add"@, "-b"@, branch@, dir@]
        }),
{
    if branch_exists {
        plan::args4("worktree", "add", dir, branch)
    } else {
        plan::args5("worktree", "add", "-b", branch, dir)
    }
}

/// What `wtx new` does once it knows the facts: the name of the VM, and the step that makes the
/// worktree.
pub struct NewWorktree {
    pub name: String,
    pub step: Step,
}

pub open spec fn new_plan(
    main_repo: Seq<char>,
    dir: Seq<char>,
    dir_exists: bool,
    record: Option<MetaView>,
    branch_exists: bool,
    branch: Seq<char>,
) -> Result<(Seq<char>, StepView), Seq<char>> {
    if dir_exists {
        Err(dir + " already exists"@)
    } else if vm_name(dir).len() == 0 {
        Err("cannot derive a VM name from "@ + dir + "; pass NAME explicitly"@)
    } else if !name_fits(record, dir) {
        Err(name_taken(vm_name(dir), record->0.workdir))
    } else {
        Ok(
            (
                vm_name(dir),
                plan::noted(
                    Verb::GitShown,
                    seq![main_repo] + (if branch_exists {
                        seq!["worktree"@, "add"@, dir, branch]
                    } else {
                        seq!["worktree"@, "add"@, "-b"@, branch, dir]
                    }),
                    OnFail::AbortWith,
                    "git worktree add failed"@,
                ),
            ),
        )
    }
}

/// A new worktree is made only where nothing is, under a VM name that can be derived and serves no
/// other directory; it is added to its repository at that directory, on the branch, which is made
/// with it if it does not exist.
pub proof fn lemma_new_worktree(
    main_repo: Seq<char>,
    dir: Seq<char>,
    record: Option<MetaView>,
    branch_exists: bool,
    branch: Seq<char>,
)
    ensures
        new_plan(main_repo, dir, true, record, branch_exists, branch) is Err,
        ({
            let p = new_plan(main_repo, dir, false, record, branch_exists, branch);
            let other = record matches Some(m) && m.workdir.len() > 0 && !path::same(
                m.workdir,
                dir,
            );
            &&& p is Err <==> vm_name(dir).len() == 0 || other
            &&& p matches Ok((name, s)) ==> {
                &&& name == vm_name(dir)
                &&& s.verb == Verb::GitShown && s.on_fail == OnFail::AbortWith
                &&& branch_exists ==> s.args == seq![main_repo, "worktree"@, "add"@, dir, branch]
                &&& !branch_exists ==> s.args == seq![
                    main_repo,
                    "worktree"@,
                    "add"@,
                    "-b"@,
                    branch,
                    dir,
                ]
            }
        }),
{
    let a = seq![main_repo] + seq!["worktree"@, "add"@, dir, branch];
    let b = seq![main_repo] + seq!["worktree"@, "add"@, "-b"@, branch, dir];
    assert(a =~= seq![main_repo, "worktree"@, "add"@, dir, branch]);
    assert(b =~= seq![main_repo, "worktree"@, "add"@, "-b"@, branch, dir]);
}

/// Decide about a new worktree and its VM. A name that is taken is found before the worktree is
/// made, so that nothing has to be cleaned up; `record` is the record under the derived name.
pub fn new(
    main_repo: &str,
    dir: &str,
    dir_exists: bool,
    record: Option<&InstanceMeta>,
    branch_exists: bool,
    branch: &str,
) -> (r: Result<NewWorktree, String>)
    ensures
        match new_plan(
            main_repo@,
            dir@,
            dir_exists,
            opt_meta_ref(record),
            branch_exists,
            branch@,
        ) {
            Ok((name, step)) => r matches Ok(x) && x.name@ == name && x.step@ == step,
            Err(e) => r matches Err(x) && x@ == e,
        },
{
    if dir_exists {
        return Err(dir.to_owned().concat(" already exists"));
    }
    let name: String = match derive_name(dir) {
        Ok(n) => n,
        Err(e) => {
            return Err(e);
        },
    };
    match ensure_name_matches(name.as_str(), record, dir) {
        Ok(_) => {},
        Err(e) => {
            return Err(e);
        },
    }
    let mut args: Vec<String> = plan::args1(main_repo);
    let mut rest: Vec<String> = worktree_add_args(branch_exists, dir, branch);
    let ghost rv = rest@;
    args.append(&mut rest);
    assert(text::texts(args@) =~= seq![main_repo@] + text::texts(rv));
    let step: Step = plan::with_note(
        Verb::GitShown,
        args,
        OnFail::AbortWith,
        "git worktree add failed",
    );
    Ok(NewWorktree { name, step })
}

// ---------------------------------------------------------------------------
// Ensure
// ---------------------------------------------------------------------------

/// What `wtx ensure` did to have a VM ready.
#[derive(Clone, Copy, PartialEq, Eq, Structural, Debug)]
pub enum EnsureAction {
    Created,
    Reused,
    Started,
}

impl EnsureAction {
    pub open spec fn text(self) -> Seq<char> {
        match self {
            EnsureAction::Created => "created"@,
            EnsureAction::Reused => "reused"@,
            EnsureAction::Started => "started"@,
        }
    }

    pub fn name(&self) -> (r: &'static str)
        ensures
            r@ == self.text(),
    {
        match self {
            EnsureAction::Created => "created",
            EnsureAction::Reused => "reused",
            EnsureAction::Started => "started",
        }
    }
}

pub open spec fn action_for(status: Seq<char>) -> EnsureAction {
    if status.len() == 0 {
        EnsureAction::Created
    } else if status == "Running"@ {
        EnsureAction::Reused
    } else {
        EnsureAction::Started
    }
}

/// What `wtx ensure` is about to do: the action it will report, and the source to seed from.
pub struct Ensure {
    pub action: EnsureAction,
    pub from: Option<String>,
}

/// The decision of `wtx ensure`. A source applies to the creation of a VM only: for an existing
/// one, it has to be the source that was recorded, and it is not applied again.
pub open spec fn ensuring(
    name: Seq<char>,
    dir: Seq<char>,
    timeout_seconds: u64,
    status: Seq<char>,
    record: Option<MetaView>,
    from: Option<Seq<char>>,
) -> Result<(EnsureAction, Option<Seq<char>>), Seq<char>> {
    if timeout_seconds == 0 {
        Err("--timeout-seconds must be greater than zero"@)
    } else if !name_fits(record, dir) {
        Err(name_taken(name, record->0.workdir))
    } else if status.len() == 0 {
        Ok((action_for(status), from))
    } else {
        match record {
            None => Err(
                "VM "@ + name
                    + " exists but has no wtx metadata; refusing to adopt it implicitly"@,
            ),
            Some(m) => match from {
                Some(requested) => if m.seeded_from == requested {
                    Ok((action_for(status), None))
                } else {
                    Err(
                        "VM "@ + name + " already exists with seeded_from="@ + (
                        if m.seeded_from.len() == 0 {
                            "<none>"@
                        } else {
                            m.seeded_from
                        }) + "; requested "@ + requested,
                    )
                },
                None => Ok((action_for(status), None)),
            },
        }
    }
}

/// Decide what it takes to have a VM ready, whether or not it exists.
pub fn ensure(
    name: &str,
    dir: &str,
    timeout_seconds: u64,
    status: &str,
    record: Option<&InstanceMeta>,
    from: Option<String>,
) -> (r: Result<Ensure, String>)
    ensures
        match ensuring(
            name@,
            dir@,
            timeout_seconds,
            status@,
            opt_meta_ref(record),
            opt_text(from),
        ) {
            Ok((action, source)) => r matches Ok(x) && x.action == action && opt_text(x.from)
                == source,
            Err(e) => r matches Err(x) && x@ == e,
        },
{
    if timeout_seconds == 0 {
        return Err("--timeout-seconds must be greater than zero".to_owned());
    }
    match ensure_name_matches(name, record, dir) {
        Ok(_) => {},
        Err(e) => {
            return Err(e);
        },
    }
    if status.is_empty() {
        return Ok(Ensure { action: EnsureAction::Created, from });
    }
    let action: EnsureAction = if text::same(status, "Running") {
        EnsureAction::Reused
    } else {
        EnsureAction::Started
    };
    match record {
        None => Err(
            "VM ".to_owned().concat(name).concat(
                " exists but has no wtx metadata; refusing to adopt it implicitly",
            ),
        ),
        Some(m) => {
            match &from {
                Some(requested) => {
                    if !text::same(m.seeded_from.as_str(), requested.as_str()) {
                        let actual: &str = if m.seeded_from.as_str().is_empty() {
                            "<none>"
                        } else {
                            m.seeded_from.as_str()
                        };
                        return Err(
                            "VM ".to_owned().concat(name).concat(
                                " already exists with seeded_from=",
                            ).concat(actual).concat("; requested ").concat(requested.as_str()),
                        );
                    }
                },
                None => {},
            }
            Ok(Ensure { action, from: None })
        },
    }
}

/// `wtx ensure` creates a VM that does not exist, with the requested source, starts one that does
/// not run and reuses one that does; it takes over neither a VM of another directory, nor one that
/// it has no record of, nor one with another source.
pub proof fn lemma_ensure_adopts_nothing(
    name: Seq<char>,
    dir: Seq<char>,
    timeout_seconds: u64,
    status: Seq<char>,
    record: Option<MetaView>,
    from: Option<Seq<char>>,
)
    requires
        timeout_seconds > 0,
    ensures
        ({
            let d = ensuring(name, dir, timeout_seconds, status, record, from);
            let other = record matches Some(m) && m.workdir.len() > 0 && !path::same(
                m.workdir,
                dir,
            );
            &&& other ==> d is Err
            &&& !other && status.len() == 0 ==> d is Ok && d->Ok_0.0 == EnsureAction::Created
                && d->Ok_0.1 == from
            &&& status.len() > 0 && record is None ==> d is Err
            &&& status.len() > 0 && !other && record is Some ==> {
                let fits = from is None || from == Some(record->0.seeded_from);
                &&& !fits ==> d is Err
                &&& fits && status == "Running"@ ==> d is Ok && d->Ok_0.0 == EnsureAction::Reused
                    && d->Ok_0.1 is None
                &&& fits && status != "Running"@ ==> d is Ok && d->Ok_0.0
                    == EnsureAction::Started && d->Ok_0.1 is None
            }
        }),
        ensuring(name, dir, 0, status, record, from) is Err,
{
}

/// Repeating `wtx ensure` on a VM that runs changes nothing: it is reported as reused, and
/// nothing is seeded again.
pub proof fn lemma_ensure_is_idempotent(
    name: Seq<char>,
    dir: Seq<char>,
    timeout_seconds: u64,
    record: MetaView,
    from: Option<Seq<char>>,
)
    requires
        timeout_seconds > 0,
        path::same(record.workdir, dir),
        from matches Some(f) ==> record.seeded_from == f,
    ensures
        ensuring(name, dir, timeout_seconds, "Running"@, Some(record), from) == Ok::<
            (EnsureAction, Option<Seq<char>>),
            Seq<char>,
        >((EnsureAction::Reused, None)),
{
    reveal_strlit("Running");
}

} // verus!
