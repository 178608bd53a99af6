use wtx::creds::agent_home;
use wtx::golden::{
    built_receipt, compatible_golden_receipt, ensure_golden, golden_preparation,
    golden_receipt_is_compatible, golden_receipt_path, golden_usable, image_build,
    image_build_finish, image_build_inner, image_rm, image_status, GoldenPreparation,
    GoldenReceipt, PROVISION_DOCKER_VERSION, PROVISION_SCHEMA_VERSION,
};
use wtx::lima::{
    adopt_simulator, apply_host_git_identity, clean_project, clone_args, collect_mounts,
    compose_project_name, derive_name, ensure, ensure_name_matches, legacy_overlay_command,
    link_agent_credentials, meta_path, new, new_worktree_dir, parse_mount, provision_instance,
    provision_path, rebuild_meta, record_lacks_policy, rename_volumes, renamed_volume, render_yaml,
    seed_cleanup, seed_cleanup_script, simulator_to_clone, stop, up_limactl, up_ready, validate_agent_access,
    wants_simulator, warn_legacy_agent_policy, warn_legacy_git_overlay, workdir_missing,
    worktree_add_args, EnsureAction, InstanceMeta, Mount, PortMap, ProvisionPath, UpOpts,
};
use wtx::json::Json;
use wtx::plan::{OnFail, Step, Verb};
use wtx::repo::{RepoInfo, RepoKind};

const AGENT: &str = "crab";

fn opts() -> UpOpts {
    UpOpts {
        memory: None,
        cpus: None,
        disk: "20GiB".into(),
        from: None,
        agent_access: false,
        no_clone: false,
        extra_mounts: vec![],
        sim: false,
        sim_device: None,
    }
}

fn meta(workdir: &str) -> InstanceMeta {
    InstanceMeta {
        workdir: workdir.to_string(),
        ..Default::default()
    }
}

fn repo(kind: RepoKind, host_git: &str) -> RepoInfo {
    RepoInfo {
        kind,
        host_git: host_git.into(),
        host_repo: "/r".into(),
        branch: "main".into(),
    }
}

fn lines(steps: &[Step]) -> Vec<String> {
    steps
        .iter()
        .map(|s| format!("{:?} {}", s.verb, s.args.join(" ")))
        .collect()
}

#[test]
fn provision_path_covers_all_state_machine_branches() {
    assert_eq!(provision_path("", true, false).unwrap(), ProvisionPath::Seed);
    assert_eq!(
        provision_path("Stopped", false, false).unwrap(),
        ProvisionPath::Reattach
    );
    assert_eq!(
        provision_path("", false, false).unwrap(),
        ProvisionPath::Golden
    );
    assert_eq!(
        provision_path("", false, true).unwrap(),
        ProvisionPath::Fresh
    );
    assert!(provision_path("Running", true, false).is_err());
}

#[test]
fn golden_preparation_covers_first_use_recovery_and_ready_paths() {
    assert_eq!(
        golden_preparation(false, "", false),
        GoldenPreparation::Build
    );
    assert_eq!(
        golden_preparation(true, "Stopped", true),
        GoldenPreparation::Ready
    );
    assert_eq!(
        golden_preparation(true, "Running", true),
        GoldenPreparation::Stop
    );
    assert_eq!(
        golden_preparation(true, "Stopped", false),
        GoldenPreparation::Rebuild
    );
    assert_eq!(
        golden_preparation(true, "Broken", true),
        GoldenPreparation::Rebuild
    );
}

#[test]
fn existing_vm_cannot_silently_change_credential_mount_policy() {
    assert!(validate_agent_access(true, true, false).is_err());
    assert!(validate_agent_access(true, false, true).is_ok());
    assert!(validate_agent_access(false, true, false).is_ok());
}

#[test]
fn clone_args_reapply_agent_policy() {
    let mut options = opts();
    options.agent_access = true;
    let args = clone_args(
        "source",
        "target",
        &options,
        &vec![Mount {
            location: "/tmp/work tree".into(),
            writable: true,
        }],
    );
    assert!(args
        .windows(2)
        .any(|v| v == ["--set", ".ssh.forwardAgent=true"]));
    assert!(args.iter().any(|v| v == "/tmp/work tree:w"));
}

#[test]
fn clone_args_pass_sizes_only_when_they_are_set() {
    let mut options = opts();
    assert_eq!(
        clone_args("a", "b", &options, &vec![]),
        ["clone", "a", "b", "--set", ".ssh.forwardAgent=false"]
    );
    options.memory = Some("8GiB".into());
    options.cpus = Some(4);
    let ro = vec![Mount {
        location: "/ro".into(),
        writable: false,
    }];
    assert_eq!(
        clone_args("a", "b", &options, &ro)[5..],
        ["--memory", "8", "--cpus", "4", "--mount-only", "/ro"]
    );
}

#[test]
fn mount_collection_keeps_automatic_mounts_unique_and_extra_modes() {
    let workdir = "/tmp/root/worktree";
    let host_git = "/tmp/root/main/.git";
    let host_claude = agent_home("/tmp/root", AGENT);
    let host_claude = host_claude.as_str();
    let extra = "/tmp/root/extra";
    let repo = RepoInfo {
        kind: RepoKind::Worktree,
        host_git: host_git.into(),
        host_repo: "/tmp/root/main".into(),
        branch: "feature".into(),
    };
    let mut options = opts();
    options.agent_access = true;
    options.extra_mounts = vec![format!("{extra}:ro"), workdir.to_string()];
    let requested: Vec<Mount> = options.extra_mounts.iter().map(|m| parse_mount(m)).collect();

    let (mounts, warnings) = collect_mounts(
        workdir,
        Some(&repo),
        options.agent_access,
        host_claude,
        true,
        &requested,
    );

    assert_eq!(mounts.len(), 4);
    assert_eq!(mounts[0].location, workdir);
    assert!(mounts[0].writable);
    assert_eq!(mounts[1].location, host_git);
    assert!(mounts[1].writable);
    assert_eq!(mounts[2].location, host_claude);
    assert!(mounts[2].writable);
    assert_eq!(mounts[3].location, extra);
    assert!(!mounts[3].writable);
    assert_eq!(
        warnings,
        [format!("wtx: ignoring {workdir}: already mounted automatically")]
    );
}

#[test]
fn credentials_are_not_mounted_by_default() {
    let (mounts, warnings) = collect_mounts("/w", None, false, &agent_home("/h", AGENT), true, &vec![]);
    assert_eq!(mounts.len(), 1);
    assert!(warnings.is_empty());
    let (mounts, warnings) = collect_mounts("/w", None, true, &agent_home("/h", AGENT), false, &vec![]);
    assert_eq!(mounts.len(), 1);
    assert_eq!(
        warnings,
        [format!("wtx: warning: --agent-access requested but /h/.{AGENT} was not found")]
    );
}

#[test]
fn metadata_rebuild_preserves_reattached_runtime_assignments() {
    let workdir = "/tmp/worktree";
    let repo = RepoInfo {
        kind: RepoKind::Normal,
        host_git: "/tmp/worktree/.git".into(),
        host_repo: workdir.into(),
        branch: "feature".into(),
    };
    let previous = InstanceMeta {
        seeded_from: "seed-vm".into(),
        sim_udid: "sim-udid".into(),
        sim_devicetype: "iPhone".into(),
        ports: vec![(
            "api".to_string(),
            PortMap {
                host: 42000,
                guest: 3000,
            },
        )],
        agent_access: true,
        ..Default::default()
    };

    let meta = rebuild_meta(workdir, Some(&repo), &opts(), true, previous);

    assert_eq!(meta.workdir, "/tmp/worktree");
    assert_eq!(meta.main_repo, "/tmp/worktree");
    assert_eq!(meta.branch, "feature");
    assert_eq!(meta.seeded_from, "seed-vm");
    assert_eq!(meta.sim_udid, "sim-udid");
    assert_eq!(meta.sim_devicetype, "iPhone");
    assert!(meta.agent_access);
    let api = wtx::table::get(&meta.ports, "api").unwrap();
    assert_eq!((api.host, api.guest), (42000, 3000));
}

#[test]
fn rendered_yaml_escapes_mount_paths_and_quotes_scalars() {
    let yaml = render_yaml(
        &vec![Mount {
            location: "/tmp/O\"Brien\nworktree".into(),
            writable: true,
        }],
        2,
        "4GiB",
        "20GiB",
        false,
        5001,
    );
    assert!(yaml.contains(r#"location: "/tmp/O\"Brien\nworktree""#));
    assert!(yaml.contains("memory: \"4GiB\""));
    assert!(yaml.contains("forwardAgent: false"));
    assert!(yaml.contains(PROVISION_DOCKER_VERSION));
    assert!(yaml.contains("cpus: 2\n"));
    assert!(yaml.contains("disk: \"20GiB\"\n"));
    assert!(yaml.contains("http://host.lima.internal:5001"));
    assert!(yaml.ends_with("  writable: true\n"));
    assert!(!yaml.contains("__"));
}

#[test]
fn control_characters_are_escaped_in_hexadecimal() {
    let mounts = vec![Mount {
        location: "/\u{1}\u{8}\t\u{c}\r\u{1f}é\\".into(),
        writable: false,
    }];
    let yaml = render_yaml(&mounts, 1, "", "", true, 1);
    assert!(yaml.contains("location: \"/\\u0001\\b\\t\\f\\r\\u001fé\\\\\"\n  writable: false"));
    assert!(yaml.contains("forwardAgent: true"));
}

#[test]
fn the_engine_and_its_plugins_are_pinned() {
    let yaml = render_yaml(&vec![], 1, "", "", false, 1);
    assert!(yaml.contains(&format!("VERSION={PROVISION_DOCKER_VERSION} sh /tmp/get-docker.sh\n")));
    for plugin in ["docker-buildx-plugin", "docker-compose-plugin"] {
        let pinned: Vec<&str> = yaml
            .lines()
            .filter(|l| l.trim_start().starts_with(&format!("{plugin}=")))
            .collect();
        assert_eq!(pinned.len(), 1, "{plugin}");
    }
    assert!(yaml.contains("apt-mark hold docker-ce docker-ce-cli docker-buildx-plugin docker-compose-plugin\n"));
}

#[test]
fn golden_receipt_requires_matching_schema_and_docker_version() {
    let mut receipt = GoldenReceipt {
        provision_schema_version: PROVISION_SCHEMA_VERSION,
        wtx_version: "0.9.0".into(),
        docker_version: PROVISION_DOCKER_VERSION.into(),
    };
    assert!(golden_receipt_is_compatible(&receipt));
    receipt.docker_version = "29.7.1".into();
    assert!(!golden_receipt_is_compatible(&receipt));
    receipt.docker_version = PROVISION_DOCKER_VERSION.into();
    receipt.provision_schema_version += 1;
    assert!(!golden_receipt_is_compatible(&receipt));
}

#[test]
fn the_base_vm_is_usable_when_stopped_and_compatible() {
    let good = built_receipt("0.9.0", PROVISION_DOCKER_VERSION);
    let stale = built_receipt("0.9.0", "28.0.0");
    assert!(golden_usable(true, "Stopped", Some(&good)));
    assert!(!golden_usable(false, "Stopped", Some(&good)));
    assert!(!golden_usable(true, "Running", Some(&good)));
    assert!(!golden_usable(true, "Stopped", Some(&stale)));
    assert!(!golden_usable(true, "Stopped", None));
    assert!(compatible_golden_receipt(Some(&good)).is_some());
    assert!(compatible_golden_receipt(Some(&stale)).is_none());
    assert_eq!(
        image_status(true, "Stopped", Some(&good)),
        "wtx-golden: ready (schema 2, Docker 29.7.2, built by wtx 0.9.0)"
    );
    assert_eq!(
        image_status(false, "", None),
        "wtx-golden: not built (prepared automatically when first needed)"
    );
    assert_eq!(
        image_status(true, "Running", Some(&good)),
        "wtx-golden: Running - it must be stopped (repaired automatically when next needed)"
    );
    assert_eq!(
        image_status(true, "Stopped", Some(&stale)),
        "wtx-golden: Stopped - missing or stale build receipt (repaired automatically when next needed)"
    );
    match good.to_json() {
        Json::Obj(m) => {
            let keys: Vec<&str> = m.iter().map(|(k, _)| k.as_str()).collect();
            assert_eq!(keys, ["provision_schema_version", "wtx_version", "docker_version"]);
        }
        _ => panic!("expected an object"),
    }
}

#[test]
fn the_base_vm_is_built_in_order() {
    let steps = image_build("/h", false, 5001);
    assert_eq!(steps[0].verb, Verb::Write);
    assert_eq!(steps[0].args[0], "/h/.wtx/wtx-golden.yaml");
    assert!(steps[0].args[1].contains("cpus: 2\n"));
    assert_eq!(
        lines(&steps[1..]),
        [
            "Say Preparing the shared base VM...",
            "Limactl start --name wtx-golden --tty=false /h/.wtx/wtx-golden.yaml",
        ]
    );
    assert_eq!(
        lines(&image_build("/h", true, 5001)),
        ["Fail wtx-golden already exists (run `wtx image rm` to rebuild it)"]
    );
    assert_eq!(
        lines(&image_build_inner("/h", false, 5001, true)[1..]),
        [
            "Complain wtx: preparing the shared base VM...",
            "LimactlCapture start --name wtx-golden --tty=false /h/.wtx/wtx-golden.yaml",
        ]
    );
    assert_eq!(
        lines(&image_build_finish(false)),
        ["Limactl stop wtx-golden", "Say Shared base VM ready"]
    );
    assert_eq!(
        lines(&image_rm("/h")),
        [
            "Limactl delete -f wtx-golden",
            "Remove /h/.wtx/wtx-golden.yaml",
            "Remove /h/.wtx/golden-receipt.json",
        ]
    );
    assert_eq!(golden_receipt_path("/h"), "/h/.wtx/golden-receipt.json");
}

#[test]
fn the_base_vm_is_prepared_as_needed() {
    let g = ensure_golden("/h", GoldenPreparation::Ready, false);
    assert!(g.steps.is_empty() && !g.build);
    let g = ensure_golden("/h", GoldenPreparation::Build, false);
    assert!(g.steps.is_empty() && g.build);
    let g = ensure_golden("/h", GoldenPreparation::Stop, false);
    assert!(!g.build);
    assert_eq!(
        lines(&g.steps),
        [
            "Say Stopping the shared base VM before cloning...",
            "Limactl stop wtx-golden"
        ]
    );
    let g = ensure_golden("/h", GoldenPreparation::Rebuild, true);
    assert!(g.build);
    assert_eq!(g.steps.len(), 4);
    assert_eq!(
        g.steps[0].args[0],
        "wtx: refreshing an incompatible shared base VM..."
    );
}

#[test]
fn compose_project_and_seed_volume_names_are_deterministic() {
    assert_eq!(compose_project_name("/tmp/My App"), "myapp");
    assert_eq!(compose_project_name("/tmp/_Project"), "project");
    let some = |a: &str, b: &str| Some((a.to_string(), b.to_string()));
    assert_eq!(
        renamed_volume("app-a", "app-b", "app-a_database"),
        some("database", "app-b_database")
    );
    assert_eq!(renamed_volume("app-a", "app-b", "fixed-name"), None);
    assert_eq!(renamed_volume("app-a", "app-a", "app-a_database"), None);
    assert_eq!(renamed_volume("", "app-b", "app-a_database"), None);
}

#[test]
fn project_names_are_lower_case_by_unicode() {
    assert_eq!(compose_project_name("/tmp/\u{212A}-App"), "k-app");
    assert_eq!(compose_project_name("/"), "");
    assert_eq!(clean_project("--a.b_c"), "ab_c");
}

#[test]
fn a_renamed_volume_is_renamed_back() {
    let (suffix, name) = renamed_volume("a", "b", "a_x").unwrap();
    assert_eq!(
        renamed_volume("b", "a", &name),
        Some((suffix, "a_x".to_string()))
    );
    assert_eq!(renamed_volume("a", "b", "a_"), None);
}

#[test]
fn volumes_of_the_source_project_are_renamed() {
    let steps = rename_volumes("vm", "app-a", "app-b", "app-a_db\nother\n", true);
    assert_eq!(steps.len(), 1);
    assert_eq!(steps[0].verb, Verb::ScriptQuiet);
    assert_eq!(steps[0].args[0], "vm");
    assert_eq!(
        steps[0].args[1],
        "set -eu\ndocker volume create \\\n  --label 'com.docker.compose.project=app-b' \\\n  --label 'com.docker.compose.volume=db' \\\n  'app-b_db' >/dev/null\nsudo cp -a '/var/lib/docker/volumes/app-a_db/_data'/. '/var/lib/docker/volumes/app-b_db/_data'/\ndocker volume rm 'app-a_db' >/dev/null\nprintf 'wtx: volume %s -> %s\\n' 'app-a_db' 'app-b_db'\n"
    );
}

#[test]
fn volumes_follow_the_working_directory_of_a_seeded_vm() {
    let src = meta("/src/App-A");
    let steps = seed_cleanup("vm", Some(&src), "/dst/App-B", "app-a_db\nother\n", false);
    assert_eq!(steps.len(), 1);
    assert_eq!(steps[0].verb, Verb::Script);
    assert!(steps[0].args[1].contains("'app-b_db' >/dev/null"));
    assert!(seed_cleanup("vm", None, "/dst/App-B", "app-a_db\n", false).is_empty());
    assert!(seed_cleanup("vm", Some(&src), "/other/app-a", "app-a_db\n", false).is_empty());
}

#[test]
fn the_source_state_is_cleaned_out_of_a_seeded_vm() {
    let mut m = meta("/w");
    assert!(seed_cleanup_script(Some(&m)).starts_with("set -eu\nOLDGIT=''\n"));
    assert!(seed_cleanup_script(None).starts_with("set -eu\nOLDGIT=''\n"));
    m.main_repo = "/src/app".into();
    assert!(seed_cleanup_script(Some(&m)).starts_with("set -eu\nOLDGIT='/src/app/.git'\n"));
}

#[test]
fn a_seed_is_stopped_for_the_copy_and_restarted() {
    let mut options = opts();
    options.from = Some("src".into());
    let p = provision_instance("vm", &options, &vec![], "/y", "", false, "Running", None).unwrap();
    assert_eq!(p.path, ProvisionPath::Seed);
    let all = lines(&p.steps);
    assert_eq!(
        all[..5],
        [
            "Say stopping src for a consistent copy (it restarts in the background)...",
            "Limactl stop src",
            "Limactl clone src vm --set .ssh.forwardAgent=false",
            "LimactlSpawn start --tty=false src",
            "Limactl start vm --tty=false",
        ]
    );
    assert_eq!(p.steps[5].verb, Verb::Script);
    assert_eq!(p.steps.len(), 6);
    let p = provision_instance("vm", &options, &vec![], "/y", "", true, "Stopped", None).unwrap();
    assert_eq!(p.steps.len(), 3);
    assert_eq!(p.steps[0].verb, Verb::LimactlCapture);
    assert_eq!(
        p.steps[0].note,
        "limactl clone src vm --set .ssh.forwardAgent=false"
    );
    let fail = |name: &str, status: &str, src: &str| {
        provision_instance(name, &options, &vec![], "/y", status, true, src, None)
            .err()
            .unwrap()
    };
    assert_eq!(
        fail("src", "", "Running"),
        "--from src: cannot seed a VM from itself"
    );
    assert_eq!(fail("vm", "", ""), "--from src: no such VM");
    assert_eq!(
        fail("vm", "Running", "Running"),
        "--from can only seed a new VM"
    );
}

#[test]
fn other_ways_to_provision_a_vm() {
    let mut options = opts();
    let go = |o: &UpOpts, status: &str| {
        provision_instance("vm", o, &vec![], "/y", status, false, "", None).unwrap()
    };
    assert!(go(&options, "Running").steps.is_empty());
    assert_eq!(
        lines(&go(&options, "Stopped").steps),
        ["Limactl start vm --tty=false"]
    );
    assert_eq!(
        lines(&go(&options, "").steps),
        [
            "Limactl clone wtx-golden vm --set .ssh.forwardAgent=false",
            "Limactl start vm --tty=false",
        ]
    );
    options.no_clone = true;
    assert_eq!(
        lines(&go(&options, "").steps),
        ["Limactl start --name vm --tty=false /y"]
    );
    assert_eq!(up_limactl(vec!["stop".to_string()], true).on_fail, OnFail::AbortAs);
}

#[test]
fn legacy_records_are_reported() {
    let warned = |existed: bool, raw: Option<&str>| {
        warn_legacy_agent_policy("vm", existed, raw).is_some()
    };
    assert!(!warned(false, None));
    assert!(warned(true, None));
    assert!(warned(true, Some("not json")));
    assert!(warned(true, Some("{\"workdir\":\"/w\"}")));
    assert!(warned(true, Some("[]")));
    assert!(!warned(true, Some("{\"agent_access\":false}")));
    assert!(record_lacks_policy(Some(&Json::Obj(vec![]))));
    assert!(!record_lacks_policy(Some(&Json::Obj(vec![(
        "agent_access".to_string(),
        Json::Null
    )]))));
    assert_eq!(
        legacy_overlay_command(Some(&repo(RepoKind::Normal, "/r/.git")), true).as_deref(),
        Some("test -e '/r/.git'/.wtx-local && echo legacy || true")
    );
    assert!(legacy_overlay_command(Some(&repo(RepoKind::Normal, "/r/.git")), false).is_none());
    assert!(legacy_overlay_command(None, true).is_none());
    assert!(warn_legacy_git_overlay("vm", "legacy").unwrap().contains("wtx rm vm && wtx up"));
    assert!(warn_legacy_git_overlay("vm", "").is_none());
}

#[test]
fn agent_credentials_are_linked_only_with_access() {
    let mut m = meta("/w");
    assert!(link_agent_credentials("vm", &m, AGENT, &agent_home("/h", AGENT), true).is_empty());
    m.agent_access = true;
    assert!(link_agent_credentials("vm", &m, AGENT, &agent_home("/h", AGENT), false).is_empty());
    let steps = link_agent_credentials("vm", &m, AGENT, &agent_home("/h", AGENT), true);
    assert_eq!(steps[0].on_fail, OnFail::Warn);
    assert!(steps[0].args[1].starts_with(&format!("set -eu\nH='/h/.{AGENT}'\n[ -d")));
    assert!(steps[0].args[1].ends_with(&format!("ln -s \"$H\" \"$HOME/.{AGENT}\"; fi")));
    assert_eq!(
        steps[0].note,
        format!("wtx: warning: could not link ~/.{AGENT} in the VM")
    );
}

#[test]
fn the_git_identity_is_quoted() {
    let step = apply_host_git_identity("vm", "O'Neil", "o@x", false);
    assert_eq!(
        step.args[1],
        "set -eu\ngit config --global --replace-all user.name 'O'\\''Neil'\ngit config --global --replace-all user.email 'o@x'\n"
    );
}

#[test]
fn a_clone_adopts_the_simulator_of_its_source() {
    let mut src = meta("/s");
    let own = meta("/w");
    assert_eq!(simulator_to_clone(&own, Some(&src)), None);
    src.sim_udid = "U".into();
    src.sim_devicetype = "iPhone".into();
    assert_eq!(simulator_to_clone(&own, Some(&src)), Some("U".to_string()));
    assert_eq!(simulator_to_clone(&own, None), None);
    let adopted = adopt_simulator(own, &src, "V", vec![]);
    assert_eq!(
        (adopted.sim_udid.as_str(), adopted.sim_devicetype.as_str()),
        ("V", "iPhone")
    );
    assert_eq!(simulator_to_clone(&adopted, Some(&src)), None);
    assert!(!wants_simulator(&opts()));
    let mut o = opts();
    o.sim_device = Some("iPhone 16".into());
    assert!(wants_simulator(&o));
}

#[test]
fn stopping_takes_forwards_and_simulator_along() {
    let mut m = meta("/w");
    m.sim_udid = "U".into();
    let files = vec!["/h/.wtx/vm-1.sock".to_string()];
    let steps = stop("vm", Some(&m), &files, false);
    assert_eq!(
        lines(&steps),
        [
            "SshQuiet -S /h/.wtx/vm-1.sock -O exit lima-vm",
            "Remove /h/.wtx/vm-1.sock",
            "Xcrun simctl shutdown U",
            "LimactlCapture stop vm",
        ]
    );
    assert_eq!(steps[2].on_fail, OnFail::Warn);
    assert_eq!(stop("vm", Some(&m), &files, true)[2].on_fail, OnFail::Ignore);
    assert_eq!(stop("vm", None, &vec![], false).len(), 1);
}

#[test]
fn names_are_derived_from_directories() {
    assert_eq!(derive_name("/w/My App!").unwrap(), "My-App");
    assert_eq!(derive_name("/w/.hidden_").unwrap(), "hidden");
    assert_eq!(derive_name("/w/v1.2-x").unwrap(), "v1.2-x");
    assert_eq!(
        derive_name("/w/---").unwrap_err(),
        "cannot derive a VM name from /w/---; pass NAME explicitly"
    );
    assert!(derive_name("/").is_err());
    let n = derive_name("/w/日本 x").unwrap();
    assert_eq!(derive_name(&n).unwrap(), n);
}

#[test]
fn a_name_serves_one_directory() {
    let m = meta("/w/a");
    assert!(ensure_name_matches("vm", None, "/w/b").is_ok());
    assert!(ensure_name_matches("vm", Some(&m), "/w/a/").is_ok());
    assert!(ensure_name_matches("vm", Some(&meta("")), "/w/b").is_ok());
    assert_eq!(
        ensure_name_matches("vm", Some(&m), "/w/b").unwrap_err(),
        "VM vm already exists for /w/a; pass a different NAME"
    );
    assert_eq!(meta_path("/h", "vm"), "/h/.wtx/vm.json");
}

#[test]
fn new_worktrees_lie_beside_the_repository() {
    assert_eq!(
        new_worktree_dir("/cwd", None, "/src/app", "feat/x"),
        "/src/app-feat-x"
    );
    assert_eq!(new_worktree_dir("/cwd", Some("../y"), "/src/app", "b"), "/cwd/../y");
    assert_eq!(new_worktree_dir("/cwd", Some("/abs"), "/src/app", "b"), "/abs");
    assert_eq!(worktree_add_args(true, "/d", "b"), ["worktree", "add", "/d", "b"]);
    let x = new("/src/app", "/src/app-b", false, None, false, "b").unwrap();
    assert_eq!(x.name, "app-b");
    assert_eq!(x.step.args, ["/src/app", "worktree", "add", "-b", "b", "/src/app-b"]);
    assert_eq!(x.step.note, "git worktree add failed");
    let fail = |dir: &str, exists: bool, m: Option<&InstanceMeta>| {
        new("/src/app", dir, exists, m, false, "b").err().unwrap()
    };
    assert_eq!(fail("/d", true, None), "/d already exists");
    assert_eq!(
        fail("/-", false, None),
        "cannot derive a VM name from /-; pass NAME explicitly"
    );
    assert_eq!(
        fail("/d", false, Some(&meta("/other"))),
        "VM d already exists for /other; pass a different NAME"
    );
}

#[test]
fn ensure_decides_by_status_and_seed() {
    let mut m = meta("/w");
    let x = ensure("vm", "/w", 1, "", None, Some("seed".to_string())).unwrap();
    assert_eq!((x.action, x.from.as_deref()), (EnsureAction::Created, Some("seed")));
    let x = ensure("vm", "/w", 1, "Running", Some(&m), None).unwrap();
    assert_eq!((x.action, x.from), (EnsureAction::Reused, None));
    let x = ensure("vm", "/w", 1, "Stopped", Some(&m), None).unwrap();
    assert_eq!(x.action, EnsureAction::Started);
    let fail = |m: Option<&InstanceMeta>, timeout: u64, dir: &str| {
        ensure("vm", dir, timeout, "Running", m, Some("seed".to_string()))
            .err()
            .unwrap()
    };
    assert_eq!(
        fail(Some(&m), 0, "/w"),
        "--timeout-seconds must be greater than zero"
    );
    assert_eq!(
        fail(Some(&m), 1, "/x"),
        "VM vm already exists for /w; pass a different NAME"
    );
    assert_eq!(
        fail(None, 1, "/w"),
        "VM vm exists but has no wtx metadata; refusing to adopt it implicitly"
    );
    assert_eq!(
        fail(Some(&m), 1, "/w"),
        "VM vm already exists with seeded_from=<none>; requested seed"
    );
    m.seeded_from = "other".into();
    assert_eq!(
        fail(Some(&m), 1, "/w"),
        "VM vm already exists with seeded_from=other; requested seed"
    );
    m.seeded_from = "seed".into();
    let x = ensure("vm", "/w", 1, "Running", Some(&m), Some("seed".to_string())).unwrap();
    assert_eq!((x.action.name(), x.from), ("reused", None));
}

#[test]
fn messages_of_up() {
    assert_eq!(up_ready("vm"), "ready:\n  wtx shell vm\n  wtx rm vm");
    assert_eq!(workdir_missing("/w"), "workdir not found: /w");
    assert_eq!(EnsureAction::Created.name(), "created");
    assert_eq!(EnsureAction::Started.name(), "started");
}
