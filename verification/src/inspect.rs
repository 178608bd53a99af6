//! Listing and inspecting VMs.
use vstd::prelude::*;

use crate::context::Known;
use crate::json::{self, Json, JsonView};
use crate::lima::{self, EnsureAction, InstanceMeta, MetaView};
use crate::port;
use crate::table;
use crate::text;
use crate::util;

verus! {

/// The version of the machine-readable receipts.
pub const RECEIPT_SCHEMA_VERSION: u32 = 2;

// ---------------------------------------------------------------------------
// Inspection
// ---------------------------------------------------------------------------

pub struct WorktreeInspection {
    pub path: String,
    pub repo: String,
    pub branch: String,
    pub head: String,
    pub orphaned: bool,
}

#[derive(Clone, Copy, PartialEq, Eq, Structural, Debug)]
pub struct PortInspection {
    pub host: u16,
    pub guest: u16,
    pub forward_alive: bool,
}

pub struct SimulatorInspection {
    pub udid: String,
    pub device_type: String,
    pub state: String,
}

/// Everything that `wtx inspect` tells of a VM.
pub struct InstanceInspection {
    pub name: String,
    pub status: String,
    pub ready: bool,
    pub worktree: WorktreeInspection,
    pub seeded_from: String,
    pub simulator: Option<SimulatorInspection>,
    pub ports: Vec<(String, PortInspection)>,
    pub agent_access: bool,
    /// Whether the VM has a git directory of its own, so that commits may exist only inside it.
    pub legacy_git: bool,
    /// Whether the VM is orphaned and the time for its recovery runs.
    pub recovering: bool,
}

pub struct SimulatorView {
    pub udid: Seq<char>,
    pub device_type: Seq<char>,
    pub state: Seq<char>,
}

pub struct InspectionView {
    pub name: Seq<char>,
    pub status: Seq<char>,
    pub ready: bool,
    pub path: Seq<char>,
    pub repo: Seq<char>,
    pub branch: Seq<char>,
    pub head: Seq<char>,
    pub orphaned: bool,
    pub seeded_from: Seq<char>,
    pub simulator: Option<SimulatorView>,
    pub ports: Seq<(Seq<char>, PortInspection)>,
    pub agent_access: bool,
    pub legacy_git: bool,
    pub recovering: bool,
}

impl View for InstanceInspection {
    type V = InspectionView;

    open spec fn view(&self) -> InspectionView {
        InspectionView {
            name: self.name@,
            status: self.status@,
            ready: self.ready,
            path: self.worktree.path@,
            repo: self.worktree.repo@,
            branch: self.worktree.branch@,
            head: self.worktree.head@,
            orphaned: self.worktree.orphaned,
            seeded_from: self.seeded_from@,
            simulator: match self.simulator {
                Some(s) => Some(
                    SimulatorView { udid: s.udid@, device_type: s.device_type@, state: s.state@ },
                ),
                None => None,
            },
            ports: table::rows(self.ports@),
            agent_access: self.agent_access,
            legacy_git: self.legacy_git,
            recovering: self.recovering,
        }
    }
}

/// The state of a simulator; `missing` if it is not among the known ones.
pub open spec fn state_in(states: Seq<(Seq<char>, Seq<char>)>, udid: Seq<char>) -> Seq<char> {
    match table::lookup(states, udid) {
        Some(s) => s,
        None => "missing"@,
    }
}

fn find_state(states: &Vec<(String, String)>, udid: &str) -> (r: String)
    ensures
        r@ == state_in(table::text_rows(states@), udid@),
{
    match table::get_text(states, udid) {
        Some(s) => s.to_owned(),
        None => "missing".to_owned(),
    }
}

/// The ports with whether their forwards are up.
pub open spec fn inspected_ports(ports: Seq<(Seq<char>, lima::PortMap)>, alive: Seq<u16>) -> Seq<
    (Seq<char>, PortInspection),
> {
    Seq::new(
        ports.len(),
        |i: int|
            (
                ports[i].0,
                PortInspection {
                    host: ports[i].1.host,
                    guest: ports[i].1.guest,
                    forward_alive: alive.contains(ports[i].1.host),
                },
            ),
    )
}

/// What is found of a VM: from its record, its status, whether Docker answered, whether its
/// working directory exists, the commit there, the states of simulators, the host ports whose
/// forwards are up, whether it has a git directory of its own and whether it was seen without its
/// working directory before.
pub open spec fn inspected(
    name: Seq<char>,
    m: MetaView,
    status: Seq<char>,
    docker_answers: bool,
    workdir_exists: bool,
    head: Seq<char>,
    states: Seq<(Seq<char>, Seq<char>)>,
    alive: Seq<u16>,
    legacy_git: bool,
    marked: bool,
) -> InspectionView {
    let orphaned = m.workdir.len() == 0 || !workdir_exists;
    InspectionView {
        name,
        status,
        ready: status == "Running"@ && docker_answers,
        path: m.workdir,
        repo: m.main_repo,
        branch: m.branch,
        head: if orphaned {
            Seq::empty()
        } else {
            head
        },
        orphaned,
        seeded_from: m.seeded_from,
        simulator: if m.sim_udid.len() == 0 {
            None
        } else {
            Some(
                SimulatorView {
                    udid: m.sim_udid,
                    device_type: m.sim_devicetype,
                    state: state_in(states, m.sim_udid),
                },
            )
        },
        ports: inspected_ports(m.ports, alive),
        agent_access: m.agent_access,
        legacy_git,
        recovering: orphaned && marked,
    }
}

/// An inspection tells of a VM what its own record and the facts say: it is ready only if it runs
/// and Docker answers, orphaned if it has no working directory any more, and each of its mappings is
/// listed with whether its own forward is up.
pub proof fn lemma_inspection_tells_the_facts(
    name: Seq<char>,
    m: MetaView,
    status: Seq<char>,
    docker_answers: bool,
    workdir_exists: bool,
    head: Seq<char>,
    states: Seq<(Seq<char>, Seq<char>)>,
    alive: Seq<u16>,
    legacy_git: bool,
    marked: bool,
    i: int,
)
    ensures
        ({
            let v = inspected(
                name,
                m,
                status,
                docker_answers,
                workdir_exists,
                head,
                states,
                alive,
                legacy_git,
                marked,
            );
            let gone = m.workdir.len() == 0 || !workdir_exists;
            &&& v.name == name && v.status == status
            &&& v.path == m.workdir && v.repo == m.main_repo && v.branch == m.branch
            &&& v.seeded_from == m.seeded_from && v.agent_access == m.agent_access
            &&& v.ready <==> status == "Running"@ && docker_answers
            &&& v.orphaned <==> gone
            &&& gone ==> v.head.len() == 0
            &&& !gone ==> v.head == head
            &&& v.recovering <==> gone && marked
            &&& v.legacy_git == legacy_git
            &&& v.simulator is Some <==> m.sim_udid.len() > 0
            &&& v.simulator matches Some(s) ==> s.udid == m.sim_udid && s.device_type
                == m.sim_devicetype && (table::lookup(states, m.sim_udid) matches Some(x)
                ==> s.state == x) && (table::lookup(states, m.sim_udid) is None ==> s.state
                == "missing"@)
            &&& v.ports.len() == m.ports.len()
            &&& 0 <= i < m.ports.len() ==> v.ports[i].0 == m.ports[i].0 && v.ports[i].1.host
                == m.ports[i].1.host && v.ports[i].1.guest == m.ports[i].1.guest
                && v.ports[i].1.forward_alive == alive.contains(m.ports[i].1.host)
        }),
{
}

pub fn inspect_instance(
    name: &str,
    meta: &InstanceMeta,
    status: &str,
    docker_answers: bool,
    workdir_exists: bool,
    head: &str,
    states: &Vec<(String, String)>,
    alive: &Vec<u16>,
    legacy_git: bool,
    marked: bool,
) -> (r: InstanceInspection)
    ensures
        r@ == inspected(
            name@,
            meta@,
            status@,
            docker_answers,
            workdir_exists,
            head@,
            table::text_rows(states@),
            alive@,
            legacy_git,
            marked,
        ),
{
    let orphaned: bool = meta.workdir.as_str().is_empty() || !workdir_exists;
    let head: String = if orphaned { text::empty() } else { head.to_owned() };
    let simulator: Option<SimulatorInspection> = if meta.sim_udid.as_str().is_empty() {
        None
    } else {
        Some(
            SimulatorInspection {
                udid: meta.sim_udid.clone(),
                device_type: meta.sim_devicetype.clone(),
                state: find_state(states, meta.sim_udid.as_str()),
            },
        )
    };
    let mut ports: Vec<(String, PortInspection)> = Vec::new();
    let ghost all = inspected_ports(meta@.ports, alive@);
    let mut i: usize = 0;
    assert(table::rows(ports@) =~= all.take(0));
    while i < meta.ports.len()
        invariant
            i <= meta.ports@.len(),
            all == inspected_ports(meta@.ports, alive@),
            table::rows(ports@) == all.take(i as int),
        decreases meta.ports@.len() - i,
    {
        let ghost before = table::rows(ports@);
        let host: u16 = meta.ports[i].1.host;
        let guest: u16 = meta.ports[i].1.guest;
        let forward_alive: bool = port::contains_port(alive, host);
        ports.push((meta.ports[i].0.clone(), PortInspection { host, guest, forward_alive }));
        assert(table::rows(ports@) =~= before.push(all[i as int]));
        assert(all.take(i + 1) =~= all.take(i as int).push(all[i as int]));
        i += 1;
    }
    assert(all.take(i as int) =~= all);
    InstanceInspection {
        name: name.to_owned(),
        status: status.to_owned(),
        ready: text::same(status, "Running") && docker_answers,
        worktree: WorktreeInspection {
            path: meta.workdir.clone(),
            repo: meta.main_repo.clone(),
            branch: meta.branch.clone(),
            head,
            orphaned,
        },
        seeded_from: meta.seeded_from.clone(),
        simulator,
        ports,
        agent_access: meta.agent_access,
        legacy_git,
        recovering: orphaned && marked,
    }
}

pub open spec fn docker_word(ready: bool) -> Seq<char> {
    if ready {
        "ready"@
    } else {
        "unavailable"@
    }
}

pub open spec fn armed_word(alive: bool) -> Seq<char> {
    if alive {
        "armed"@
    } else {
        "down"@
    }
}

pub open spec fn port_lines(ports: Seq<(Seq<char>, PortInspection)>) -> Seq<Seq<char>> {
    Seq::new(
        ports.len(),
        |i: int|
            "  port "@ + ports[i].0 + ": host "@ + text::dec(ports[i].1.host as nat)
                + " -> guest "@ + text::dec(ports[i].1.guest as nat) + " ["@ + armed_word(
                ports[i].1.forward_alive,
            ) + "]"@,
    )
}

pub open spec fn line_unless_empty(label: Seq<char>, s: Seq<char>) -> Seq<Seq<char>> {
    if s.len() == 0 {
        Seq::empty()
    } else {
        seq![label + s]
    }
}

/// What is said of a VM with a git directory of its own.
pub const LEGACY_GIT: &'static str = "legacy isolated git (commits may exist only inside the VM)";

/// What is said of an orphaned VM whose recovery time runs.
pub const RECOVERING: &'static str = "recovery window started";

/// A line that is there only where something holds.
pub open spec fn line_if(b: bool, line: Seq<char>) -> Seq<Seq<char>> {
    if b {
        seq![line]
    } else {
        Seq::empty()
    }
}

/// The lines of `wtx inspect`.
pub open spec fn inspect_text(v: InspectionView) -> Seq<Seq<char>> {
    seq![
        v.name + ": "@ + v.status + " ("@ + (if v.ready {
            "ready"@
        } else {
            "not ready"@
        }) + ")"@,
        "  worktree: "@ + v.path,
    ] + line_if(v.recovering, "  orphaned: "@ + RECOVERING@) + line_unless_empty(
        "  branch: "@,
        v.branch,
    ) + line_if(v.legacy_git, "  git: "@ + LEGACY_GIT@) + seq![
        "  docker: "@ + docker_word(v.ready),
        "  credentials: "@ + (if v.agent_access {
            "host-shared (--agent-access)"@
        } else {
            "host-only"@
        }),
    ] + line_unless_empty("  seeded from: "@, v.seeded_from) + (match v.simulator {
        Some(s) => seq![
            "  simulator: "@ + s.udid + " ("@ + s.device_type + ") ["@ + s.state + "]"@,
        ],
        None => Seq::empty(),
    }) + port_lines(v.ports)
}

/// The lines of an inspection begin with the VM, its status and its directory, and end with its
/// mappings, one line for each and in their order.
pub proof fn lemma_inspection_lists_every_mapping(v: InspectionView, i: int)
    ensures
        ({
            let l = inspect_text(v);
            let n = l.len() - v.ports.len();
            &&& n >= 4
            &&& v.ready ==> l[0] == v.name + ": "@ + v.status + " ("@ + "ready"@ + ")"@
            &&& !v.ready ==> l[0] == v.name + ": "@ + v.status + " ("@ + "not ready"@ + ")"@
            &&& l[1] == "  worktree: "@ + v.path
            &&& v.branch.len() > 0 ==> l.contains("  branch: "@ + v.branch)
            &&& v.seeded_from.len() > 0 ==> l.contains("  seeded from: "@ + v.seeded_from)
            &&& v.agent_access ==> l.contains("  credentials: "@ + "host-shared (--agent-access)"@)
            &&& !v.agent_access ==> l.contains("  credentials: "@ + "host-only"@)
            &&& v.simulator matches Some(s) ==> l[n - 1] == "  simulator: "@ + s.udid + " ("@
                + s.device_type + ") ["@ + s.state + "]"@
            &&& 0 <= i < v.ports.len() ==> {
                let p = v.ports[i].1;
                let begin = "  port "@ + v.ports[i].0 + ": host "@ + text::dec(p.host as nat)
                    + " -> guest "@ + text::dec(p.guest as nat);
                &&& p.forward_alive ==> l[n + i] == begin + " ["@ + "armed"@ + "]"@
                &&& !p.forward_alive ==> l[n + i] == begin + " ["@ + "down"@ + "]"@
            }
        }),
{
    let l = inspect_text(v);
    let n = l.len() - v.ports.len();
    let a: int = if v.recovering {
        3
    } else {
        2
    };
    let b: int = if v.branch.len() > 0 {
        a + 1
    } else {
        a
    };
    let c: int = if v.legacy_git {
        b + 1
    } else {
        b
    };
    if v.branch.len() > 0 {
        assert(l[a] == "  branch: "@ + v.branch);
    }
    if v.agent_access {
        assert(l[c + 1] == "  credentials: "@ + "host-shared (--agent-access)"@);
    } else {
        assert(l[c + 1] == "  credentials: "@ + "host-only"@);
    }
    if v.seeded_from.len() > 0 {
        assert(l[c + 2] == "  seeded from: "@ + v.seeded_from);
    }
    if 0 <= i < v.ports.len() {
        assert(l[n + i] == port_lines(v.ports)[i]);
    }
}

pub fn inspect(x: &InstanceInspection) -> (r: Vec<String>)
    ensures
        text::texts(r@) == inspect_text(x@),
{
    let mut out: Vec<String> = Vec::new();
    assert(text::texts(out@) =~= Seq::empty());
    let ready: &str = if x.ready { "ready" } else { "not ready" };
    text::push_string(
        &mut out,
        x.name.clone().concat(": ").concat(x.status.as_str()).concat(" (").concat(ready).concat(
            ")",
        ),
    );
    text::push_string(&mut out, "  worktree: ".to_owned().concat(x.worktree.path.as_str()));
    if x.recovering {
        text::push_string(&mut out, "  orphaned: ".to_owned().concat(RECOVERING));
    }
    if !x.worktree.branch.as_str().is_empty() {
        text::push_string(&mut out, "  branch: ".to_owned().concat(x.worktree.branch.as_str()));
    }
    if x.legacy_git {
        text::push_string(&mut out, "  git: ".to_owned().concat(LEGACY_GIT));
    }
    let docker: &str = if x.ready { "ready" } else { "unavailable" };
    text::push_string(&mut out, "  docker: ".to_owned().concat(docker));
    let creds: &str = if x.agent_access {
        "host-shared (--agent-access)"
    } else {
        "host-only"
    };
    text::push_string(&mut out, "  credentials: ".to_owned().concat(creds));
    if !x.seeded_from.as_str().is_empty() {
        text::push_string(&mut out, "  seeded from: ".to_owned().concat(x.seeded_from.as_str()));
    }
    match &x.simulator {
        Some(s) => {
            text::push_string(
                &mut out,
                "  simulator: ".to_owned().concat(s.udid.as_str()).concat(" (").concat(
                    s.device_type.as_str(),
                ).concat(") [").concat(s.state.as_str()).concat("]"),
            );
        },
        None => {},
    }
    let ghost head = text::texts(out@);
    let ghost all = port_lines(x@.ports);
    let mut i: usize = 0;
    assert(head + all.take(0) =~= head);
    while i < x.ports.len()
        invariant
            i <= x.ports@.len(),
            all == port_lines(x@.ports),
            text::texts(out@) == head + all.take(i as int),
        decreases x.ports@.len() - i,
    {
        let h: String = text::dec_of(x.ports[i].1.host as u64);
        let g: String = text::dec_of(x.ports[i].1.guest as u64);
        let alive: &str = if x.ports[i].1.forward_alive { "armed" } else { "down" };
        let line: String = "  port ".to_owned().concat(x.ports[i].0.as_str()).concat(
            ": host ",
        ).concat(h.as_str()).concat(" -> guest ").concat(g.as_str()).concat(" [").concat(
            alive,
        ).concat("]");
        text::push_string(&mut out, line);
        assert(text::texts(out@) =~= head + all.take(i as int).push(all[i as int]));
        assert(all.take(i + 1) =~= all.take(i as int).push(all[i as int]));
        i += 1;
    }
    assert(all.take(i as int) =~= all);
    assert(text::texts(out@) =~= inspect_text(x@));
    out
}

pub open spec fn port_json(p: PortInspection) -> JsonView {
    JsonView::Obj(
        seq![
            ("host"@, JsonView::Num(p.host as int)),
            ("guest"@, JsonView::Num(p.guest as int)),
            ("forward_alive"@, JsonView::Bool(p.forward_alive)),
        ],
    )
}

pub open spec fn ports_json(ports: Seq<(Seq<char>, PortInspection)>) -> Seq<
    (Seq<char>, JsonView),
> {
    Seq::new(ports.len(), |i: int| (ports[i].0, port_json(ports[i].1)))
}

/// A member that is left out where its text is empty.
pub open spec fn member_unless_empty(k: Seq<char>, s: Seq<char>) -> Seq<(Seq<char>, JsonView)> {
    if s.len() == 0 {
        Seq::empty()
    } else {
        seq![(k, JsonView::Str(s))]
    }
}

pub open spec fn worktree_json(v: InspectionView) -> JsonView {
    JsonView::Obj(
        seq![
            ("path"@, JsonView::Str(v.path)),
            ("repo"@, JsonView::Str(v.repo)),
            ("branch"@, JsonView::Str(v.branch)),
        ] + member_unless_empty("head"@, v.head) + seq![
            ("orphaned"@, JsonView::Bool(v.orphaned)),
        ],
    )
}

pub open spec fn simulator_json(s: SimulatorView) -> JsonView {
    JsonView::Obj(
        seq![
            ("udid"@, JsonView::Str(s.udid)),
            ("device_type"@, JsonView::Str(s.device_type)),
            ("state"@, JsonView::Str(s.state)),
        ],
    )
}

/// A member that is there, and true, only where something holds.
pub open spec fn member_if(b: bool, k: Seq<char>) -> Seq<(Seq<char>, JsonView)> {
    if b {
        seq![(k, JsonView::Bool(true))]
    } else {
        Seq::empty()
    }
}

/// What the receipts say of every VM.
pub open spec fn instance_members(v: InspectionView) -> Seq<(Seq<char>, JsonView)> {
    seq![
        ("name"@, JsonView::Str(v.name)),
        ("status"@, JsonView::Str(v.status)),
        ("ready"@, JsonView::Bool(v.ready)),
        ("runtime"@, JsonView::Obj(seq![("docker"@, JsonView::Str(docker_word(v.ready)))])),
        ("worktree"@, worktree_json(v)),
    ] + member_unless_empty("seeded_from"@, v.seeded_from) + (match v.simulator {
        Some(s) => seq![("simulator"@, simulator_json(s))],
        None => Seq::empty(),
    }) + seq![
        ("ports"@, JsonView::Obj(ports_json(v.ports))),
        ("agent_access"@, JsonView::Bool(v.agent_access)),
    ]
}

/// A VM in the machine-readable receipts.
pub open spec fn instance_json(v: InspectionView) -> JsonView {
    JsonView::Obj(
        instance_members(v) + member_if(v.legacy_git, "legacy_git"@) + member_if(
            v.recovering,
            "recovering"@,
        ),
    )
}

/// Append the flags that hold.
fn add_flags(m: &mut Vec<(String, Json)>, legacy_git: bool, recovering: bool)
    ensures
        json::members(final(m)@) == json::members(old(m)@) + member_if(legacy_git, "legacy_git"@)
            + member_if(recovering, "recovering"@),
{
    let ghost before = json::members(m@);
    if legacy_git {
        json::member(m, "legacy_git", Json::Bool(true));
    }
    if recovering {
        json::member(m, "recovering", Json::Bool(true));
    }
    assert(json::members(m@) =~= before + member_if(legacy_git, "legacy_git"@) + member_if(
        recovering,
        "recovering"@,
    ));
}

impl InstanceInspection {
    fn worktree_to_json(&self) -> (r: Json)
        ensures
            r@ == worktree_json(self@),
    {
        let mut w: Vec<(String, Json)> = json::no_members();
        json::member(&mut w, "path", json::string(self.worktree.path.as_str()));
        json::member(&mut w, "repo", json::string(self.worktree.repo.as_str()));
        json::member(&mut w, "branch", json::string(self.worktree.branch.as_str()));
        if !self.worktree.head.as_str().is_empty() {
            json::member(&mut w, "head", json::string(self.worktree.head.as_str()));
        }
        json::member(&mut w, "orphaned", Json::Bool(self.worktree.orphaned));
        assert(json::members(w@) =~= worktree_json(self@)->Obj_0);
        json::object(w)
    }

    fn ports_to_json(&self) -> (r: Json)
        ensures
            r@ == JsonView::Obj(ports_json(self@.ports)),
    {
        let mut ports: Vec<(String, Json)> = json::no_members();
        let ghost all = ports_json(self@.ports);
        let mut i: usize = 0;
        assert(all.take(0) =~= Seq::empty());
        while i < self.ports.len()
            invariant
                i <= self.ports@.len(),
                all == ports_json(self@.ports),
                json::members(ports@) == all.take(i as int),
            decreases self.ports@.len() - i,
        {
            let p: PortInspection = self.ports[i].1;
            let mut m: Vec<(String, Json)> = json::no_members();
            json::member(&mut m, "host", Json::Num(p.host as i64));
            json::member(&mut m, "guest", Json::Num(p.guest as i64));
            json::member(&mut m, "forward_alive", Json::Bool(p.forward_alive));
            assert(json::members(m@) =~= port_json(p)->Obj_0);
            json::member(&mut ports, self.ports[i].0.as_str(), json::object(m));
            assert(all.take(i + 1) =~= all.take(i as int).push(all[i as int]));
            i += 1;
        }
        assert(all.take(i as int) =~= all);
        json::object(ports)
    }

    pub fn to_json(&self) -> (r: Json)
        ensures
            r@ == instance_json(self@),
    {
        let docker: &str = if self.ready { "ready" } else { "unavailable" };
        let mut runtime: Vec<(String, Json)> = json::no_members();
        json::member(&mut runtime, "docker", json::string(docker));
        assert(json::members(runtime@) =~= seq![
            ("docker"@, JsonView::Str(docker_word(self.ready))),
        ]);

        let mut m: Vec<(String, Json)> = json::no_members();
        json::member(&mut m, "name", json::string(self.name.as_str()));
        json::member(&mut m, "status", json::string(self.status.as_str()));
        json::member(&mut m, "ready", Json::Bool(self.ready));
        json::member(&mut m, "runtime", json::object(runtime));
        json::member(&mut m, "worktree", self.worktree_to_json());
        if !self.seeded_from.as_str().is_empty() {
            json::member(&mut m, "seeded_from", json::string(self.seeded_from.as_str()));
        }
        match &self.simulator {
            Some(s) => {
                let mut x: Vec<(String, Json)> = json::no_members();
                json::member(&mut x, "udid", json::string(s.udid.as_str()));
                json::member(&mut x, "device_type", json::string(s.device_type.as_str()));
                json::member(&mut x, "state", json::string(s.state.as_str()));
                assert(json::members(x@) =~= seq![
                    ("udid"@, JsonView::Str(s.udid@)),
                    ("device_type"@, JsonView::Str(s.device_type@)),
                    ("state"@, JsonView::Str(s.state@)),
                ]);
                json::member(&mut m, "simulator", json::object(x));
            },
            None => {},
        }
        json::member(&mut m, "ports", self.ports_to_json());
        json::member(&mut m, "agent_access", Json::Bool(self.agent_access));
        assert(json::members(m@) =~= instance_members(self@));
        add_flags(&mut m, self.legacy_git, self.recovering);
        json::object(m)
    }
}

/// The document of a VM says of it what the inspection found: its readiness, its worktree, and every
/// mapping under its label in their order, with both ports and whether its forward is up.
pub proof fn lemma_instance_document(v: InspectionView, i: int)
    ensures
        ({
            let m = instance_members(v);
            let a: int = if v.seeded_from.len() > 0 {
                6
            } else {
                5
            };
            let b: int = if v.simulator is Some {
                a + 1
            } else {
                a
            };
            &&& instance_json(v) is Obj
            &&& begins_with(instance_json(v)->Obj_0, m)
            &&& m.len() == b + 2
            &&& m[0] == ("name"@, JsonView::Str(v.name))
            &&& m[1] == ("status"@, JsonView::Str(v.status))
            &&& m[2] == ("ready"@, JsonView::Bool(v.ready))
            &&& v.ready ==> m[3] == (
                "runtime"@,
                JsonView::Obj(seq![("docker"@, JsonView::Str("ready"@))]),
            )
            &&& !v.ready ==> m[3] == (
                "runtime"@,
                JsonView::Obj(seq![("docker"@, JsonView::Str("unavailable"@))]),
            )
            &&& m[4].0 == "worktree"@ && m[4].1 is Obj
            &&& m[4].1->Obj_0[0] == ("path"@, JsonView::Str(v.path))
            &&& m[4].1->Obj_0[1] == ("repo"@, JsonView::Str(v.repo))
            &&& m[4].1->Obj_0[2] == ("branch"@, JsonView::Str(v.branch))
            &&& m[4].1->Obj_0.last() == ("orphaned"@, JsonView::Bool(v.orphaned))
            &&& v.head.len() > 0 ==> m[4].1->Obj_0[3] == ("head"@, JsonView::Str(v.head))
            &&& v.seeded_from.len() > 0 ==> m[5] == ("seeded_from"@, JsonView::Str(v.seeded_from))
            &&& v.simulator matches Some(s) ==> m[a] == (
                "simulator"@,
                JsonView::Obj(
                    seq![
                        ("udid"@, JsonView::Str(s.udid)),
                        ("device_type"@, JsonView::Str(s.device_type)),
                        ("state"@, JsonView::Str(s.state)),
                    ],
                ),
            )
            &&& m[b].0 == "ports"@ && m[b].1 is Obj
            &&& m[b].1->Obj_0.len() == v.ports.len()
            &&& 0 <= i < v.ports.len() ==> m[b].1->Obj_0[i] == (
                v.ports[i].0,
                JsonView::Obj(
                    seq![
                        ("host"@, JsonView::Num(v.ports[i].1.host as int)),
                        ("guest"@, JsonView::Num(v.ports[i].1.guest as int)),
                        ("forward_alive"@, JsonView::Bool(v.ports[i].1.forward_alive)),
                    ],
                ),
            )
            &&& m[b + 1] == ("agent_access"@, JsonView::Bool(v.agent_access))
        }),
{
    let all = instance_json(v)->Obj_0;
    let m = instance_members(v);
    assert(all.take(m.len() as int) =~= m);
}

/// Whether a list of members begins with the given ones.
pub open spec fn begins_with(
    all: Seq<(Seq<char>, JsonView)>,
    first: Seq<(Seq<char>, JsonView)>,
) -> bool {
    first.len() <= all.len() && all.take(first.len() as int) == first
}

/// The receipt of `wtx inspect --json`.
pub fn inspect_receipt(x: &InstanceInspection) -> (r: Json)
    ensures
        r@ == JsonView::Obj(
            seq![
                ("schema_version"@, JsonView::Num(RECEIPT_SCHEMA_VERSION as int)),
                ("instance"@, instance_json(x@)),
            ],
        ),
{
    let mut m: Vec<(String, Json)> = json::no_members();
    json::member(&mut m, "schema_version", Json::Num(RECEIPT_SCHEMA_VERSION as i64));
    json::member(&mut m, "instance", x.to_json());
    assert(json::members(m@) =~= seq![
        ("schema_version"@, JsonView::Num(RECEIPT_SCHEMA_VERSION as int)),
        ("instance"@, instance_json(x@)),
    ]);
    json::object(m)
}

/// The receipt of `wtx ensure --json`.
pub fn ensure_receipt(action: EnsureAction, x: &InstanceInspection) -> (r: Json)
    ensures
        r@ == JsonView::Obj(
            seq![
                ("schema_version"@, JsonView::Num(RECEIPT_SCHEMA_VERSION as int)),
                ("action"@, JsonView::Str(action.text())),
                ("instance"@, instance_json(x@)),
            ],
        ),
{
    let mut m: Vec<(String, Json)> = json::no_members();
    json::member(&mut m, "schema_version", Json::Num(RECEIPT_SCHEMA_VERSION as i64));
    json::member(&mut m, "action", json::string(action.name()));
    json::member(&mut m, "instance", x.to_json());
    assert(json::members(m@) =~= seq![
        ("schema_version"@, JsonView::Num(RECEIPT_SCHEMA_VERSION as int)),
        ("action"@, JsonView::Str(action.text())),
        ("instance"@, instance_json(x@)),
    ]);
    json::object(m)
}

/// The lines of `wtx ensure`.
pub fn ensure_report(name: &str, action: EnsureAction, worktree: &str) -> (r: Vec<String>)
    ensures
        text::texts(r@) == seq![
            action.text() + ": "@ + name@ + " is ready"@,
            "  worktree: "@ + worktree@,
            "  run: wtx shell "@ + name@,
            "  remove: wtx rm "@ + name@,
        ],
{
    let first: String = action.name().to_owned().concat(": ").concat(name).concat(" is ready");
    let second: String = "  worktree: ".to_owned().concat(worktree);
    let third: String = "  run: wtx shell ".to_owned().concat(name);
    let fourth: String = "  remove: wtx rm ".to_owned().concat(name);
    crate::plan::args4(first.as_str(), second.as_str(), third.as_str(), fourth.as_str())
}

// ---------------------------------------------------------------------------
// Listing
// ---------------------------------------------------------------------------

/// A VM in a listing.
pub struct Instance {
    pub name: String,
    pub status: String,
    pub workdir: String,
    pub branch: String,
    /// The root of the host's repository, by which VMs are grouped.
    pub repo: String,
    /// Whether the worktree is gone. Deleting the VM loses no commits, which the host keeps, unless
    /// the VM has a git directory of its own.
    pub orphaned: bool,
    pub sim_udid: String,
    /// Whether the VM has a git directory of its own, so that commits may exist only inside it.
    pub legacy_git: bool,
    /// Whether the VM is orphaned and the time for its recovery runs.
    pub recovering: bool,
}

pub struct InstanceView {
    pub name: Seq<char>,
    pub status: Seq<char>,
    pub workdir: Seq<char>,
    pub branch: Seq<char>,
    pub repo: Seq<char>,
    pub orphaned: bool,
    pub sim_udid: Seq<char>,
    pub legacy_git: bool,
    pub recovering: bool,
}

impl View for Instance {
    type V = InstanceView;

    open spec fn view(&self) -> InstanceView {
        InstanceView {
            name: self.name@,
            status: self.status@,
            workdir: self.workdir@,
            branch: self.branch@,
            repo: self.repo@,
            orphaned: self.orphaned,
            sim_udid: self.sim_udid@,
            legacy_git: self.legacy_git,
            recovering: self.recovering,
        }
    }
}

impl Clone for Instance {
    fn clone(&self) -> (r: Self)
        ensures
            r@ == self@,
    {
        Instance {
            name: self.name.clone(),
            status: self.status.clone(),
            workdir: self.workdir.clone(),
            branch: self.branch.clone(),
            repo: self.repo.clone(),
            orphaned: self.orphaned,
            sim_udid: self.sim_udid.clone(),
            legacy_git: self.legacy_git,
            recovering: self.recovering,
        }
    }
}

pub open spec fn instances(v: Seq<Instance>) -> Seq<InstanceView> {
    Seq::new(v.len(), |i: int| v[i]@)
}

/// The record of a VM; a blank one if there is none.
pub open spec fn record_of(records: Seq<(Seq<char>, MetaView)>, name: Seq<char>) -> MetaView {
    match table::lookup(records, name) {
        Some(m) => m,
        None => lima::blank_meta(),
    }
}

/// A VM of the listing, from its line: its name and status with a tab between them.
pub open spec fn listed(
    line: Seq<char>,
    records: Seq<(Seq<char>, MetaView)>,
    gone: Seq<Seq<char>>,
    legacy: Seq<Seq<char>>,
    marked: Seq<Seq<char>>,
) -> Option<InstanceView> {
    match text::split_at_first(line, '\t') {
        Some((name, status)) => {
            let m = record_of(records, name);
            let orphaned = m.workdir.len() != 0 && gone.contains(m.workdir);
            Some(
                InstanceView {
                    name,
                    status,
                    workdir: m.workdir,
                    branch: m.branch,
                    repo: m.main_repo,
                    orphaned,
                    sim_udid: m.sim_udid,
                    legacy_git: legacy.contains(name),
                    recovering: orphaned && marked.contains(name),
                },
            )
        },
        None => None,
    }
}

pub open spec fn listing(
    lines: Seq<Seq<char>>,
    records: Seq<(Seq<char>, MetaView)>,
    gone: Seq<Seq<char>>,
    legacy: Seq<Seq<char>>,
    marked: Seq<Seq<char>>,
) -> Seq<InstanceView>
    decreases lines.len(),
{
    if lines.len() == 0 {
        Seq::empty()
    } else {
        let before = listing(lines.drop_last(), records, gone, legacy, marked);
        match listed(lines.last(), records, gone, legacy, marked) {
            Some(x) => before.push(x),
            None => before,
        }
    }
}

/// Every VM that Lima lists is listed, in Lima's order, with its own status and what its own
/// record says; it is orphaned exactly if its record names a working directory that is gone, and
/// recovering if it was also seen orphaned before.
pub proof fn lemma_every_vm_is_listed(
    lines: Seq<Seq<char>>,
    names: Seq<Seq<char>>,
    states: Seq<Seq<char>>,
    records: Seq<(Seq<char>, MetaView)>,
    gone: Seq<Seq<char>>,
    legacy: Seq<Seq<char>>,
    marked: Seq<Seq<char>>,
    i: int,
)
    requires
        lines.len() == names.len() == states.len(),
        forall|k: int|
            0 <= k < lines.len() ==> #[trigger] lines[k] == names[k].push('\t') + states[k]
                && !names[k].contains('\t'),
        0 <= i < lines.len(),
    ensures
        ({
            let rows = listing(lines, records, gone, legacy, marked);
            let x = rows[i];
            let m = record_of(records, names[i]);
            &&& rows.len() == lines.len()
            &&& x.name == names[i] && x.status == states[i]
            &&& x.workdir == m.workdir && x.branch == m.branch && x.repo == m.main_repo
            &&& x.sim_udid == m.sim_udid
            &&& x.orphaned <==> m.workdir.len() > 0 && gone.contains(m.workdir)
            &&& x.legacy_git <==> legacy.contains(names[i])
            &&& x.recovering <==> x.orphaned && marked.contains(names[i])
        }),
    decreases lines.len(),
{
    let k = lines.len() - 1;
    let (f, n, s) = (lines.drop_last(), names.drop_last(), states.drop_last());
    assert(lines[k] == names[k].push('\t') + states[k]);
    text::lemma_split_at_first(names[k], '\t', states[k]);
    let before = listing(f, records, gone, legacy, marked);
    if k == 0 {
        assert(before.len() == 0);
    } else {
        assert forall|j: int| 0 <= j < f.len() implies #[trigger] f[j] == n[j].push('\t') + s[j]
            && !n[j].contains('\t') by {
            assert(f[j] == lines[j]);
        }
        let j = if i < k {
            i
        } else {
            0
        };
        lemma_every_vm_is_listed(f, n, s, records, gone, legacy, marked, j);
    }
}

fn find_record<'a>(records: &'a Vec<Known>, name: &str) -> (r: Option<&'a InstanceMeta>)
    ensures
        lima::opt_meta_ref(r) == table::lookup(crate::context::known(records@), name@),
{
    let ghost t = crate::context::known(records@);
    let mut i: usize = 0;
    assert(t.skip(0) =~= t);
    while i < records.len()
        invariant
            i <= records@.len(),
            t == crate::context::known(records@),
            table::lookup(t, name@) == table::lookup(t.skip(i as int), name@),
        decreases records@.len() - i,
    {
        assert(t.skip(i as int)[0] == t[i as int]);
        assert(t.skip(i as int).skip(1) =~= t.skip(i + 1));
        if text::same(records[i].0.as_str(), name) {
            return Some(&records[i].1);
        }
        i += 1;
    }
    None
}

/// List the VMs that Lima knows, from what `limactl list` printed, the records of VMs, the working
/// directories that are gone, the VMs with a git directory of their own and those that were seen
/// orphaned before.
pub fn list_instances(
    out: &str,
    records: &Vec<Known>,
    gone: &Vec<String>,
    legacy: &Vec<String>,
    marked: &Vec<String>,
) -> (r: Vec<Instance>)
    ensures
        instances(r@) == listing(
            text::lines_of(util::captured(Some(out@))),
            crate::context::known(records@),
            text::texts(gone@),
            text::texts(legacy@),
            text::texts(marked@),
        ),
{
    let lines: Vec<String> = text::lines(text::trim(out));
    let ghost t = text::texts(lines@);
    let ghost k = crate::context::known(records@);
    let mut rows: Vec<Instance> = Vec::new();
    let mut i: usize = 0;
    assert(t.take(0) =~= Seq::empty());
    assert(instances(rows@) =~= Seq::empty());
    while i < lines.len()
        invariant
            i <= lines@.len(),
            t == text::texts(lines@),
            k == crate::context::known(records@),
            instances(rows@) == listing(
                t.take(i as int),
                k,
                text::texts(gone@),
                text::texts(legacy@),
                text::texts(marked@),
            ),
        decreases lines@.len() - i,
    {
        assert(t.take(i + 1).drop_last() =~= t.take(i as int));
        assert(t.take(i + 1).last() == t[i as int]);
        match text::split_once(lines[i].as_str(), '\t') {
            Some((name, status)) => {
                let meta: InstanceMeta = match find_record(records, name) {
                    Some(m) => m.clone(),
                    None => InstanceMeta::default(),
                };
                let orphaned: bool = !meta.workdir.as_str().is_empty() && text::list_contains(
                    gone,
                    meta.workdir.as_str(),
                );
                let row: Instance = Instance {
                    name: name.to_owned(),
                    status: status.to_owned(),
                    workdir: meta.workdir,
                    branch: meta.branch,
                    repo: meta.main_repo,
                    orphaned,
                    sim_udid: meta.sim_udid,
                    legacy_git: text::list_contains(legacy, name),
                    recovering: orphaned && text::list_contains(marked, name),
                };
                let ghost before = instances(rows@);
                let ghost x = row@;
                rows.push(row);
                assert(instances(rows@) =~= before.push(x));
            },
            None => {},
        }
        i += 1;
    }
    assert(t.take(i as int) =~= t);
    rows
}

/// The state of every simulator of a listed VM is looked up, and of no other.
pub proof fn lemma_every_simulator_is_looked_up(rows: Seq<InstanceView>, udid: Seq<char>)
    ensures
        simulators(rows).contains(udid) <==> udid.len() > 0 && exists|i: int|
            0 <= i < rows.len() && (#[trigger] rows[i]).sim_udid == udid,
    decreases rows.len(),
{
    let all = simulators(rows);
    if rows.len() > 0 {
        let f = rows.drop_last();
        lemma_every_simulator_is_looked_up(f, udid);
        let before = simulators(f);
        if before.contains(udid) {
            let j = choose|j: int| 0 <= j < before.len() && before[j] == udid;
            assert(all[j] == udid);
            let i = choose|i: int| 0 <= i < f.len() && (#[trigger] f[i]).sim_udid == udid;
            assert(rows[i].sim_udid == udid);
        }
        assert(rows[rows.len() - 1] == rows.last());
        if rows.last().sim_udid == udid && udid.len() > 0 {
            assert(all[all.len() - 1] == udid);
        }
        if all.contains(udid) {
            let j = choose|j: int| 0 <= j < all.len() && all[j] == udid;
            if j < before.len() {
                assert(before[j] == udid);
            }
        }
        if exists|i: int| 0 <= i < rows.len() && (#[trigger] rows[i]).sim_udid == udid {
            let i = choose|i: int| 0 <= i < rows.len() && (#[trigger] rows[i]).sim_udid == udid;
            if i < f.len() {
                assert(f[i].sim_udid == udid);
            }
        }
    }
}

/// The simulators of the listed VMs, whose states have to be looked up.
pub open spec fn simulators(rows: Seq<InstanceView>) -> Seq<Seq<char>>
    decreases rows.len(),
{
    if rows.len() == 0 {
        Seq::empty()
    } else if rows.last().sim_udid.len() == 0 {
        simulators(rows.drop_last())
    } else {
        simulators(rows.drop_last()).push(rows.last().sim_udid)
    }
}

pub fn simulators_of(rows: &Vec<Instance>) -> (r: Vec<String>)
    ensures
        text::texts(r@) == simulators(instances(rows@)),
{
    let ghost t = instances(rows@);
    let mut out: Vec<String> = Vec::new();
    let mut i: usize = 0;
    assert(t.take(0) =~= Seq::empty());
    assert(text::texts(out@) =~= Seq::empty());
    while i < rows.len()
        invariant
            i <= rows@.len(),
            t == instances(rows@),
            text::texts(out@) == simulators(t.take(i as int)),
        decreases rows@.len() - i,
    {
        assert(t.take(i + 1).drop_last() =~= t.take(i as int));
        assert(t.take(i + 1).last() == t[i as int]);
        if !rows[i].sim_udid.as_str().is_empty() {
            text::push_text(&mut out, rows[i].sim_udid.as_str());
        }
        i += 1;
    }
    assert(t.take(i as int) =~= t);
    out
}

pub open spec fn padded_to(s: Seq<char>, width: nat) -> Seq<char> {
    util::padded(s, util::str_width(s), width)
}

/// A row of `wtx ls` behind its three columns.
pub open spec fn row_tail(x: InstanceView, state: Seq<char>) -> Seq<char> {
    x.workdir + (if x.sim_udid.len() == 0 {
        Seq::empty()
    } else {
        "  sim:"@ + state
    }) + (if x.orphaned {
        "  (orphaned: workdir gone)"@
    } else {
        Seq::empty()
    }) + (if x.recovering {
        "  ("@ + RECOVERING@ + ")"@
    } else {
        Seq::empty()
    }) + (if x.legacy_git {
        "  ("@ + LEGACY_GIT@ + ")"@
    } else {
        Seq::empty()
    })
}

/// A row of `wtx ls`.
pub open spec fn row_text(x: InstanceView, states: Seq<(Seq<char>, Seq<char>)>) -> Seq<char> {
    padded_to(x.name, 24) + padded_to(x.status, 10) + padded_to(x.branch, 16) + row_tail(
        x,
        state_in(states, x.sim_udid),
    )
}

pub open spec fn rows_text(rows: Seq<InstanceView>, states: Seq<(Seq<char>, Seq<char>)>) -> Seq<
    Seq<char>,
> {
    Seq::new(rows.len(), |i: int| row_text(rows[i], states))
}

pub open spec fn any_orphaned(rows: Seq<InstanceView>) -> bool {
    exists|i: int| 0 <= i < rows.len() && (#[trigger] rows[i]).orphaned
}

/// The lines of `wtx ls`.
pub open spec fn ls_text(rows: Seq<InstanceView>, states: Seq<(Seq<char>, Seq<char>)>) -> Seq<
    Seq<char>,
> {
    if rows.len() == 0 {
        seq!["no VMs. Create one with `wtx up NAME WORKDIR`"@]
    } else {
        seq![padded_to("NAME"@, 24) + padded_to("STATUS"@, 10) + padded_to("BRANCH"@, 16)]
            + rows_text(rows, states) + (if any_orphaned(rows) {
            seq!["\norphaned VMs can be cleaned up with `wtx prune`"@]
        } else {
            Seq::empty()
        })
    }
}

/// The list has a row for every VM, in their order, under its heading: name, status and branch in
/// columns and then the directory, with its simulator's state and what is wrong with it behind. It
/// ends with a hint exactly if a VM is orphaned.
pub proof fn lemma_every_vm_has_its_row(
    rows: Seq<InstanceView>,
    states: Seq<(Seq<char>, Seq<char>)>,
    i: int,
)
    ensures
        rows.len() > 0 ==> ls_text(rows, states).len() == 1 + rows.len() + (if exists|k: int|
            0 <= k < rows.len() && (#[trigger] rows[k]).orphaned {
            1int
        } else {
            0
        }),
        0 <= i < rows.len() ==> {
            let x = rows[i];
            let l = ls_text(rows, states)[i + 1];
            let begin = padded_to(x.name, 24) + padded_to(x.status, 10) + padded_to(x.branch, 16)
                + x.workdir;
            &&& text::has_prefix(l, begin)
            &&& x.sim_udid.len() == 0 && !x.orphaned && !x.recovering && !x.legacy_git ==> l
                == begin
            &&& x.sim_udid.len() > 0 && !x.orphaned && !x.recovering && !x.legacy_git ==> l == begin
                + "  sim:"@ + state_in(states, x.sim_udid)
            &&& x.sim_udid.len() == 0 && x.orphaned && !x.recovering && !x.legacy_git ==> l == begin
                + "  (orphaned: workdir gone)"@
        },
        forall|s: Seq<char>, w: nat|
            #![trigger padded_to(s, w)]
            text::has_prefix(padded_to(s, w), s) && padded_to(s, w).len() == s.len() + (
            if util::str_width(s) < w {
                w - util::str_width(s)
            } else {
                0
            }),
{
    if 0 <= i < rows.len() {
        let x = rows[i];
        let l = ls_text(rows, states)[i + 1];
        assert(l == rows_text(rows, states)[i]);
        let begin = padded_to(x.name, 24) + padded_to(x.status, 10) + padded_to(x.branch, 16)
            + x.workdir;
        assert(l.take(begin.len() as int) =~= begin);
        if !x.orphaned && !x.recovering && !x.legacy_git {
            if x.sim_udid.len() == 0 {
                assert(l =~= begin);
            } else {
                assert(l =~= begin + "  sim:"@ + state_in(states, x.sim_udid));
            }
        }
        if x.sim_udid.len() == 0 && x.orphaned && !x.recovering && !x.legacy_git {
            assert(l =~= begin + "  (orphaned: workdir gone)"@);
        }
    }
    assert forall|s: Seq<char>, w: nat|
        #![trigger padded_to(s, w)]
        text::has_prefix(padded_to(s, w), s) by {
        assert(padded_to(s, w).take(s.len() as int) =~= s);
    }
}

/// The part of a row that follows its three columns.
pub fn ls_row_tail(x: &Instance, state: &str) -> (r: String)
    ensures
        r@ == row_tail(x@, state@),
{
    let sim: String = if x.sim_udid.as_str().is_empty() {
        text::empty()
    } else {
        "  sim:".to_owned().concat(state)
    };
    let orphan: String = if x.orphaned {
        "  (orphaned: workdir gone)".to_owned()
    } else {
        text::empty()
    };
    let recovering: String = if x.recovering {
        "  (".to_owned().concat(RECOVERING).concat(")")
    } else {
        text::empty()
    };
    let legacy: String = if x.legacy_git {
        "  (".to_owned().concat(LEGACY_GIT).concat(")")
    } else {
        text::empty()
    };
    x.workdir.clone().concat(sim.as_str()).concat(orphan.as_str()).concat(
        recovering.as_str(),
    ).concat(legacy.as_str())
}

pub fn ls(rows: &Vec<Instance>, states: &Vec<(String, String)>) -> (r: Vec<String>)
    ensures
        text::texts(r@) == ls_text(instances(rows@), table::text_rows(states@)),
{
    let ghost t = instances(rows@);
    let ghost st = table::text_rows(states@);
    if rows.len() == 0 {
        return crate::plan::args1("no VMs. Create one with `wtx up NAME WORKDIR`");
    }
    let a: String = util::pad("NAME", 24);
    let b: String = util::pad("STATUS", 10);
    let c: String = util::pad("BRANCH", 16);
    let title: String = a.concat(b.as_str()).concat(c.as_str());
    let mut out: Vec<String> = crate::plan::args1(title.as_str());
    let ghost head = text::texts(out@);
    let ghost all = rows_text(t, st);
    let mut orphans: bool = false;
    let mut i: usize = 0;
    assert(head + all.take(0) =~= head);
    while i < rows.len()
        invariant
            i <= rows@.len(),
            t == instances(rows@),
            st == table::text_rows(states@),
            all == rows_text(t, st),
            text::texts(out@) == head + all.take(i as int),
            orphans ==> any_orphaned(t),
            !orphans ==> forall|j: int| 0 <= j < i ==> !(#[trigger] t[j]).orphaned,
        decreases rows@.len() - i,
    {
        assert(t[i as int] == rows@[i as int]@);
        let a: String = util::pad(rows[i].name.as_str(), 24);
        let b: String = util::pad(rows[i].status.as_str(), 10);
        let c: String = util::pad(rows[i].branch.as_str(), 16);
        let state: String = find_state(states, rows[i].sim_udid.as_str());
        let tail: String = ls_row_tail(&rows[i], state.as_str());
        text::push_string(
            &mut out,
            a.concat(b.as_str()).concat(c.as_str()).concat(tail.as_str()),
        );
        if rows[i].orphaned {
            orphans = true;
        }
        assert(text::texts(out@) =~= head + all.take(i as int).push(all[i as int]));
        assert(all.take(i + 1) =~= all.take(i as int).push(all[i as int]));
        i += 1;
    }
    assert(all.take(i as int) =~= all);
    if orphans {
        text::push_text(&mut out, "\norphaned VMs can be cleaned up with `wtx prune`");
    }
    assert(text::texts(out@) =~= ls_text(t, st));
    out
}

/// A row of `wtx ls --json`.
pub open spec fn row_json(x: InstanceView, states: Seq<(Seq<char>, Seq<char>)>) -> JsonView {
    JsonView::Obj(
        seq![
            ("name"@, JsonView::Str(x.name)),
            ("status"@, JsonView::Str(x.status)),
            ("branch"@, JsonView::Str(x.branch)),
            ("workdir"@, JsonView::Str(x.workdir)),
            ("repo"@, JsonView::Str(x.repo)),
            ("orphaned"@, JsonView::Bool(x.orphaned)),
        ] + (if x.sim_udid.len() == 0 {
            Seq::empty()
        } else {
            seq![
                ("sim_udid"@, JsonView::Str(x.sim_udid)),
                ("sim_state"@, JsonView::Str(state_in(states, x.sim_udid))),
            ]
        }) + member_if(x.legacy_git, "legacy_git"@) + member_if(x.recovering, "recovering"@),
    )
}

/// A row of the machine-readable list holds the VM's own name, status, branch, directory, repository
/// and whether it is orphaned, its device with its state if it has one, and what else is wrong.
pub proof fn lemma_row_document(x: InstanceView, states: Seq<(Seq<char>, Seq<char>)>)
    ensures
        ({
            let m = row_json(x, states)->Obj_0;
            let n: int = if x.sim_udid.len() > 0 {
                8
            } else {
                6
            };
            &&& row_json(x, states) is Obj
            &&& m[0] == ("name"@, JsonView::Str(x.name))
            &&& m[1] == ("status"@, JsonView::Str(x.status))
            &&& m[2] == ("branch"@, JsonView::Str(x.branch))
            &&& m[3] == ("workdir"@, JsonView::Str(x.workdir))
            &&& m[4] == ("repo"@, JsonView::Str(x.repo))
            &&& m[5] == ("orphaned"@, JsonView::Bool(x.orphaned))
            &&& n == 8 ==> m[6] == ("sim_udid"@, JsonView::Str(x.sim_udid))
            &&& n == 8 ==> m[7] == ("sim_state"@, JsonView::Str(state_in(states, x.sim_udid)))
            &&& x.legacy_git ==> m[n] == ("legacy_git"@, JsonView::Bool(true))
            &&& x.recovering ==> m.last() == ("recovering"@, JsonView::Bool(true))
            &&& m.len() == n + (if x.legacy_git {
                1int
            } else {
                0
            }) + (if x.recovering {
                1int
            } else {
                0
            })
        }),
{
}

/// The document of `wtx ls --json`.
pub fn ls_json(rows: &Vec<Instance>, states: &Vec<(String, String)>) -> (r: Json)
    ensures
        r@ == JsonView::Arr(
            Seq::new(
                rows@.len(),
                |i: int| row_json(instances(rows@)[i], table::text_rows(states@)),
            ),
        ),
{
    let ghost t = instances(rows@);
    let ghost st = table::text_rows(states@);
    let ghost all = Seq::new(rows@.len(), |i: int| row_json(t[i], st));
    let mut out: Vec<Json> = Vec::new();
    let mut i: usize = 0;
    assert(json::items(out@) =~= all.take(0));
    while i < rows.len()
        invariant
            i <= rows@.len(),
            t == instances(rows@),
            st == table::text_rows(states@),
            all == Seq::new(rows@.len(), |i: int| row_json(t[i], st)),
            json::items(out@) == all.take(i as int),
        decreases rows@.len() - i,
    {
        let x: &Instance = &rows[i];
        assert(t[i as int] == x@);
        let mut m: Vec<(String, Json)> = json::no_members();
        json::member(&mut m, "name", json::string(x.name.as_str()));
        json::member(&mut m, "status", json::string(x.status.as_str()));
        json::member(&mut m, "branch", json::string(x.branch.as_str()));
        json::member(&mut m, "workdir", json::string(x.workdir.as_str()));
        json::member(&mut m, "repo", json::string(x.repo.as_str()));
        json::member(&mut m, "orphaned", Json::Bool(x.orphaned));
        if !x.sim_udid.as_str().is_empty() {
            let state: String = find_state(states, x.sim_udid.as_str());
            json::member(&mut m, "sim_udid", json::string(x.sim_udid.as_str()));
            json::member(&mut m, "sim_state", json::string(state.as_str()));
        }
        add_flags(&mut m, x.legacy_git, x.recovering);
        assert(json::members(m@) =~= row_json(x@, st)->Obj_0);
        json::item(&mut out, json::object(m));
        assert(all.take(i + 1) =~= all.take(i as int).push(all[i as int]));
        i += 1;
    }
    assert(all.take(i as int) =~= all);
    json::array(out)
}

} // verus!
