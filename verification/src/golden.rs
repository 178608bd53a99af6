//! The shared base VM that new VMs are cloned from.
use vstd::prelude::*;

use crate::json::{self, Json, JsonView};
use crate::lima::{self, Mount};
use crate::path;
use crate::plan::{self, Step, StepView, Verb};
use crate::text;
use crate::util;

verus! {

/// The name of the shared base VM.
pub const GOLDEN: &'static str = "wtx-golden";

/// The version of what provisioning installs.
pub const PROVISION_SCHEMA_VERSION: u32 = 2;

/// The Docker Engine that provisioning installs.
pub const PROVISION_DOCKER_VERSION: &'static str = "29.7.2";

/// The command that prints the version of a VM's Docker Engine.
pub const DOCKER_VERSION: &'static str = "docker version --format '{{.Server.Version}}'";

/// What the shared base VM was built from.
pub struct GoldenReceipt {
    pub provision_schema_version: u32,
    pub wtx_version: String,
    pub docker_version: String,
}

pub struct ReceiptView {
    pub provision_schema_version: u32,
    pub wtx_version: Seq<char>,
    pub docker_version: Seq<char>,
}

impl View for GoldenReceipt {
    type V = ReceiptView;

    open spec fn view(&self) -> ReceiptView {
        ReceiptView {
            provision_schema_version: self.provision_schema_version,
            wtx_version: self.wtx_version@,
            docker_version: self.docker_version@,
        }
    }
}

pub open spec fn opt_receipt(r: Option<&GoldenReceipt>) -> Option<ReceiptView> {
    match r {
        Some(x) => Some(x@),
        None => None,
    }
}

pub open spec fn receipt_path(home: Seq<char>) -> Seq<char> {
    path::below(util::home_of(home), "golden-receipt.json"@)
}

pub fn golden_receipt_path(home: &str) -> (r: String)
    ensures
        r@ == receipt_path(home@),
{
    path::join(util::wtx_home(home).as_str(), "golden-receipt.json")
}

/// Whether a receipt fits this version of wtx.
pub open spec fn compatible(r: ReceiptView) -> bool {
    r.provision_schema_version == PROVISION_SCHEMA_VERSION && r.docker_version
        == PROVISION_DOCKER_VERSION@
}

pub open spec fn compatible_receipt(r: Option<ReceiptView>) -> bool {
    match r {
        Some(x) => compatible(x),
        None => false,
    }
}

pub fn golden_receipt_is_compatible(receipt: &GoldenReceipt) -> (r: bool)
    ensures
        r == compatible(receipt@),
{
    receipt.provision_schema_version == PROVISION_SCHEMA_VERSION && text::same(
        receipt.docker_version.as_str(),
        PROVISION_DOCKER_VERSION,
    )
}

/// The receipt that was read, if it fits this version of wtx.
pub fn compatible_golden_receipt<'a>(receipt: Option<&'a GoldenReceipt>) -> (r: Option<
    &'a GoldenReceipt,
>)
    ensures
        r == (if compatible_receipt(opt_receipt(receipt)) {
            receipt
        } else {
            None
        }),
{
    match receipt {
        Some(x) => if golden_receipt_is_compatible(x) {
            Some(x)
        } else {
            None
        },
        None => None,
    }
}

/// Whether VMs can be cloned from the shared base VM right away.
pub open spec fn usable(yaml_exists: bool, status: Seq<char>, receipt: Option<ReceiptView>) -> bool {
    yaml_exists && status == "Stopped"@ && compatible_receipt(receipt)
}

pub fn golden_usable(yaml_exists: bool, status: &str, receipt: Option<&GoldenReceipt>) -> (r: bool)
    ensures
        r == usable(yaml_exists, status@, opt_receipt(receipt)),
{
    yaml_exists && text::same(status, "Stopped") && compatible_golden_receipt(receipt).is_some()
}

/// The receipt of a base VM that was just built.
pub fn built_receipt(wtx_version: &str, docker_version: &str) -> (r: GoldenReceipt)
    ensures
        r@ == (ReceiptView {
            provision_schema_version: PROVISION_SCHEMA_VERSION,
            wtx_version: wtx_version@,
            docker_version: docker_version@,
        }),
{
    GoldenReceipt {
        provision_schema_version: PROVISION_SCHEMA_VERSION,
        wtx_version: wtx_version.to_owned(),
        docker_version: docker_version.to_owned(),
    }
}

impl GoldenReceipt {
    pub fn to_json(&self) -> (r: Json)
        ensures
            r@ == JsonView::Obj(
                seq![
                    (
                        "provision_schema_version"@,
                        JsonView::Num(self@.provision_schema_version as int),
                    ),
                    ("wtx_version"@, JsonView::Str(self@.wtx_version)),
                    ("docker_version"@, JsonView::Str(self@.docker_version)),
                ],
            ),
    {
        let mut m: Vec<(String, Json)> = json::no_members();
        json::member(
            &mut m,
            "provision_schema_version",
            Json::Num(self.provision_schema_version as i64),
        );
        json::member(&mut m, "wtx_version", json::string(self.wtx_version.as_str()));
        json::member(&mut m, "docker_version", json::string(self.docker_version.as_str()));
        assert(json::members(m@) =~= seq![
            ("provision_schema_version"@, JsonView::Num(self@.provision_schema_version as int)),
            ("wtx_version"@, JsonView::Str(self@.wtx_version)),
            ("docker_version"@, JsonView::Str(self@.docker_version)),
        ]);
        json::object(m)
    }
}

/// The steps that install the base VM. A base VM that exists is not replaced.
pub open spec fn building(home: Seq<char>, exists: bool, mirror_port: u16, quiet: bool) -> Seq<
    StepView,
> {
    if exists {
        seq![
            plan::fails(GOLDEN@ + " already exists (run `wtx image rm` to rebuild it)"@),
        ]
    } else {
        let yaml = lima::yaml_path_of(home, GOLDEN@);
        seq![
            plan::does(
                Verb::Write,
                seq![
                    yaml,
                    lima::configuration(
                        Seq::empty(),
                        2,
                        "4GiB"@,
                        "20GiB"@,
                        false,
                        mirror_port,
                    ),
                ],
            ),
            if quiet {
                plan::complains("wtx: preparing the shared base VM..."@)
            } else {
                plan::says("Preparing the shared base VM..."@)
            },
            lima::lima_step(seq!["start"@, "--name"@, GOLDEN@, "--tty=false"@, yaml], quiet),
        ]
    }
}

pub fn image_build_inner(home: &str, exists: bool, mirror_port: u16, quiet: bool) -> (r: Vec<Step>)
    ensures
        plan::steps(r@) == building(home@, exists, mirror_port, quiet),
{
    if exists {
        let m: String = GOLDEN.to_owned().concat(
            " already exists (run `wtx image rm` to rebuild it)",
        );
        return plan::one(plan::fail(m.as_str()));
    }
    let yaml: String = lima::yaml_path(home, GOLDEN);
    let none: Vec<Mount> = Vec::new();
    assert(lima::mounts_view(none@) =~= Seq::empty());
    let config: String = lima::render_yaml(&none, 2, "4GiB", "20GiB", false, mirror_port);
    let mut p: Vec<Step> = plan::nothing();
    plan::push(&mut p, plan::must(Verb::Write, plan::args2(yaml.as_str(), config.as_str())));
    if quiet {
        plan::push(&mut p, plan::complain("wtx: preparing the shared base VM..."));
    } else {
        plan::push(&mut p, plan::say("Preparing the shared base VM..."));
    }
    plan::push(
        &mut p,
        lima::up_limactl(
            plan::args5("start", "--name", GOLDEN, "--tty=false", yaml.as_str()),
            quiet,
        ),
    );
    assert(plan::steps(p@) =~= building(home@, exists, mirror_port, quiet));
    p
}

/// The steps after the receipt of a new base VM is written: VMs are cloned from a stopped one.
pub open spec fn finishing(quiet: bool) -> Seq<StepView> {
    let stop = lima::lima_step(seq!["stop"@, GOLDEN@], quiet);
    if quiet {
        seq![stop]
    } else {
        seq![stop, plan::says("Shared base VM ready"@)]
    }
}

pub fn image_build_finish(quiet: bool) -> (r: Vec<Step>)
    ensures
        plan::steps(r@) == finishing(quiet),
{
    let mut p: Vec<Step> = plan::nothing();
    plan::push(&mut p, lima::up_limactl(plan::args2("stop", GOLDEN), quiet));
    if !quiet {
        plan::push(&mut p, plan::say("Shared base VM ready"));
    }
    assert(plan::steps(p@) =~= finishing(quiet));
    p
}

/// The steps that take the base VM away.
pub open spec fn removing(home: Seq<char>, quiet: bool) -> Seq<StepView> {
    seq![
        lima::lima_step(seq!["delete"@, "-f"@, GOLDEN@], quiet),
        plan::tries(Verb::Remove, seq![lima::yaml_path_of(home, GOLDEN@)]),
        plan::tries(Verb::Remove, seq![receipt_path(home)]),
    ]
}

pub fn image_rm_inner(home: &str, quiet: bool) -> (r: Vec<Step>)
    ensures
        plan::steps(r@) == removing(home@, quiet),
{
    let yaml: String = lima::yaml_path(home, GOLDEN);
    let receipt: String = golden_receipt_path(home);
    let mut p: Vec<Step> = plan::nothing();
    plan::push(&mut p, lima::up_limactl(plan::args3("delete", "-f", GOLDEN), quiet));
    plan::push(&mut p, plan::attempt(Verb::Remove, plan::args1(yaml.as_str())));
    plan::push(&mut p, plan::attempt(Verb::Remove, plan::args1(receipt.as_str())));
    assert(plan::steps(p@) =~= removing(home@, quiet));
    p
}

/// `wtx image build`.
pub fn image_build(home: &str, exists: bool, mirror_port: u16) -> (r: Vec<Step>)
    ensures
        plan::steps(r@) == building(home@, exists, mirror_port, false),
{
    image_build_inner(home, exists, mirror_port, false)
}

/// `wtx image rm`.
pub fn image_rm(home: &str) -> (r: Vec<Step>)
    ensures
        plan::steps(r@) == removing(home@, false),
{
    image_rm_inner(home, false)
}

/// What has to happen before a VM can be cloned from the base VM.
#[derive(Clone, Copy, PartialEq, Eq, Structural, Debug)]
pub enum GoldenPreparation {
    Ready,
    Stop,
    Rebuild,
    Build,
}

pub open spec fn preparation(exists: bool, status: Seq<char>, compatible: bool) -> GoldenPreparation {
    if !exists {
        GoldenPreparation::Build
    } else if compatible && status == "Stopped"@ {
        GoldenPreparation::Ready
    } else if compatible && status == "Running"@ {
        GoldenPreparation::Stop
    } else {
        GoldenPreparation::Rebuild
    }
}

pub fn golden_preparation(exists: bool, status: &str, compatible: bool) -> (r: GoldenPreparation)
    ensures
        r == preparation(exists, status@, compatible),
{
    if !exists {
        GoldenPreparation::Build
    } else if compatible && text::same(status, "Stopped") {
        GoldenPreparation::Ready
    } else if compatible && text::same(status, "Running") {
        GoldenPreparation::Stop
    } else {
        GoldenPreparation::Rebuild
    }
}

/// A base VM that is usable needs no preparation.
pub proof fn lemma_usable_is_ready(status: Seq<char>, receipt: Option<ReceiptView>)
    requires
        usable(true, status, receipt),
    ensures
        preparation(true, status, compatible_receipt(receipt)) == GoldenPreparation::Ready,
{
}

/// The steps that bring the base VM into the state from which it is cloned, up to a build where
/// one is needed.
pub struct Golden {
    pub steps: Vec<Step>,
    /// Whether the base VM has to be built after these steps.
    pub build: bool,
}

/// The base VM is built if it is missing, cloned from as it is if it fits and is stopped, stopped
/// first if it fits and runs, and built anew in every other case; it fits only with this version's
/// schema and engine.
pub proof fn lemma_preparation(exists: bool, status: Seq<char>, r: ReceiptView)
    ensures
        !exists ==> preparation(exists, status, compatible(r)) == GoldenPreparation::Build,
        exists ==> {
            let p = preparation(exists, status, compatible(r));
            let fits = r.provision_schema_version == 2 && r.docker_version == "29.7.2"@;
            &&& p == GoldenPreparation::Ready <==> fits && status == "Stopped"@
            &&& p == GoldenPreparation::Stop <==> fits && status == "Running"@
            &&& p == GoldenPreparation::Rebuild <==> !fits || (status != "Stopped"@ && status
                != "Running"@)
        },
        usable(exists, status, Some(r)) <==> exists && status == "Stopped"@
            && r.provision_schema_version == 2 && r.docker_version == "29.7.2"@,
        !usable(exists, status, None),
{
    reveal_strlit("Stopped");
    reveal_strlit("Running");
    assert("Stopped"@[0] == 'S' && "Running"@[0] == 'R');
}

pub open spec fn preparing(home: Seq<char>, p: GoldenPreparation, quiet: bool) -> Seq<StepView> {
    match p {
        GoldenPreparation::Ready => Seq::empty(),
        GoldenPreparation::Build => Seq::empty(),
        GoldenPreparation::Stop => (if quiet {
            Seq::empty()
        } else {
            seq![plan::says("Stopping the shared base VM before cloning..."@)]
        }) + seq![lima::lima_step(seq!["stop"@, GOLDEN@], quiet)],
        GoldenPreparation::Rebuild => seq![
            if quiet {
                plan::complains("wtx: refreshing an incompatible shared base VM..."@)
            } else {
                plan::says("Refreshing the shared base VM..."@)
            },
        ] + removing(home, quiet),
    }
}

pub fn ensure_golden(home: &str, prep: GoldenPreparation, quiet: bool) -> (r: Golden)
    ensures
        plan::steps(r.steps@) == preparing(home@, prep, quiet),
        r.build == (prep == GoldenPreparation::Rebuild || prep == GoldenPreparation::Build),
{
    let mut p: Vec<Step> = plan::nothing();
    match prep {
        GoldenPreparation::Ready => Golden { steps: p, build: false },
        GoldenPreparation::Build => Golden { steps: p, build: true },
        GoldenPreparation::Stop => {
            if !quiet {
                plan::push(&mut p, plan::say("Stopping the shared base VM before cloning..."));
            }
            plan::push(&mut p, lima::up_limactl(plan::args2("stop", GOLDEN), quiet));
            assert(plan::steps(p@) =~= preparing(home@, prep, quiet));
            Golden { steps: p, build: false }
        },
        GoldenPreparation::Rebuild => {
            if quiet {
                plan::push(
                    &mut p,
                    plan::complain("wtx: refreshing an incompatible shared base VM..."),
                );
            } else {
                plan::push(&mut p, plan::say("Refreshing the shared base VM..."));
            }
            plan::append(&mut p, image_rm_inner(home, quiet));
            assert(plan::steps(p@) =~= preparing(home@, prep, quiet));
            Golden { steps: p, build: true }
        },
    }
}

/// Before a clone the base VM is at rest: one that runs is stopped, and one that does not fit is
/// deleted with its configuration and its receipt before it is built anew.
pub proof fn lemma_preparation_steps(home: Seq<char>, quiet: bool)
    ensures
        preparing(home, GoldenPreparation::Ready, quiet).len() == 0,
        preparing(home, GoldenPreparation::Build, quiet).len() == 0,
        ({
            let s = preparing(home, GoldenPreparation::Stop, quiet);
            &&& s.len() == (if quiet {
                1int
            } else {
                2
            })
            &&& lima::runs_limactl(s.last(), seq!["stop"@, "wtx-golden"@], quiet)
        }),
        ({
            let s = preparing(home, GoldenPreparation::Rebuild, quiet);
            &&& s.len() == 4
            &&& lima::runs_limactl(s[1], seq!["delete"@, "-f"@, "wtx-golden"@], quiet)
            &&& s[2].verb == Verb::Remove && s[2].args == seq![
                lima::yaml_path_of(home, "wtx-golden"@),
            ]
            &&& s[3].verb == Verb::Remove && s[3].args == seq![
                path::below(path::below(home, ".wtx"@), "golden-receipt.json"@),
            ]
        }),
        lima::runs_limactl(finishing(quiet)[0], seq!["stop"@, "wtx-golden"@], quiet),
        lima::runs_limactl(removing(home, quiet)[0], seq!["delete"@, "-f"@, "wtx-golden"@], quiet),
{
}

/// A base VM is built from a configuration without mounts and without agent access, and one that
/// exists is not replaced.
pub proof fn lemma_base_vm_is_built(home: Seq<char>, mirror_port: u16, quiet: bool)
    ensures
        ({
            let s = building(home, true, mirror_port, quiet);
            s.len() == 1 && s[0].verb == Verb::Fail
        }),
        ({
            let s = building(home, false, mirror_port, quiet);
            let yaml = lima::yaml_path_of(home, "wtx-golden"@);
            &&& s.len() == 3
            &&& s[0].verb == Verb::Write && s[0].args == seq![
                yaml,
                lima::configuration(Seq::empty(), 2, "4GiB"@, "20GiB"@, false, mirror_port),
            ]
            &&& lima::runs_limactl(
                s[2],
                seq!["start"@, "--name"@, "wtx-golden"@, "--tty=false"@, yaml],
                quiet,
            )
        }),
{
}

/// The line of `wtx image status`.
pub open spec fn status_line(
    yaml_exists: bool,
    status: Seq<char>,
    receipt: Option<ReceiptView>,
) -> Seq<char> {
    if usable(yaml_exists, status, receipt) {
        let r = receipt->0;
        GOLDEN@ + ": ready (schema "@ + text::dec(r.provision_schema_version as nat) + ", Docker "@
            + r.docker_version + ", built by wtx "@ + r.wtx_version + ")"@
    } else if status.len() == 0 {
        GOLDEN@ + ": not built (prepared automatically when first needed)"@
    } else {
        GOLDEN@ + ": "@ + status + " - "@ + (if compatible_receipt(receipt) {
            "it must be stopped"@
        } else {
            "missing or stale build receipt"@
        }) + " (repaired automatically when next needed)"@
    }
}

pub fn image_status(yaml_exists: bool, status: &str, receipt: Option<&GoldenReceipt>) -> (r: String)
    ensures
        r@ == status_line(yaml_exists, status@, opt_receipt(receipt)),
{
    let fits: bool = compatible_golden_receipt(receipt).is_some();
    if yaml_exists && text::same(status, "Stopped") {
        match compatible_golden_receipt(receipt) {
            Some(x) => {
                let schema: String = text::dec_of(x.provision_schema_version as u64);
                return GOLDEN.to_owned().concat(": ready (schema ").concat(
                    schema.as_str(),
                ).concat(", Docker ").concat(x.docker_version.as_str()).concat(
                    ", built by wtx ",
                ).concat(x.wtx_version.as_str()).concat(")");
            },
            None => {},
        }
    }
    if status.is_empty() {
        return GOLDEN.to_owned().concat(": not built (prepared automatically when first needed)");
    }
    let why: &str = if fits { "it must be stopped" } else { "missing or stale build receipt" };
    GOLDEN.to_owned().concat(": ").concat(status).concat(" - ").concat(why).concat(
        " (repaired automatically when next needed)",
    )
}

} // verus!
