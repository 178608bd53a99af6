use wtx::lima::{InstanceMeta, Mount, ProvisionPath, UpOpts};
use wtx::mirror;
use wtx::plan::{self, After, OnFail, Step, Verb};
use wtx::repo::DotGit;
use wtx::up::{up_finish, up_inner, UpFacts};

fn opts() -> UpOpts {
    UpOpts {
        memory: None,
        cpus: None,
        disk: "20GiB".into(),
        from: None,
        agent_access: false,
        no_clone: false,
        extra_mounts: vec![],
        sim: false,
        sim_device: None,
    }
}

fn facts<'a>(dot: &'a DotGit, extra: &'a Vec<Mount>) -> UpFacts<'a> {
    UpFacts {
        home: "/h",
        name: "vm",
        workdir: "/w",
        is_dir: true,
        mirror_alive: true,
        dot,
        dot_error: None,
        head: Some("ref: refs/heads/main\n"),
        agent: "crab",
        agent_dir_exists: true,
        extra,
        mount_error: None,
        mirror_port: 5001,
        status: "",
        raw: None,
        previous: None,
        src_status: "",
        src_meta: None,
        quiet: false,
    }
}

fn verbs(steps: &[Step]) -> Vec<Verb> {
    steps.iter().map(|s| s.verb).collect()
}

/// The error with which a plan ends whose steps all succeed, but for those that stand for one.
fn ending(steps: &[Step]) -> Option<String> {
    for s in steps {
        let error = (s.verb == Verb::Fail).then(|| s.args[0].clone());
        if let After::Stop(e) = plan::after(s, error.as_deref()) {
            return Some(e);
        }
    }
    None
}

#[test]
fn a_new_vm_is_cloned_from_the_shared_base_vm() {
    let (dot, extra) = (DotGit::Directory, vec![]);
    let p = up_inner(&facts(&dot, &extra), &opts());
    assert_eq!(verbs(&p.before), [Verb::Write]);
    assert_eq!(p.before[0].args[0], "/h/.wtx/vm.yaml");
    assert!(p.before[0].args[1].contains("cpus: 2\nmemory: \"4GiB\"\ndisk: \"20GiB\"\n"));
    assert!(p.before[0].args[1].ends_with("- location: \"/w\"\n  writable: true\n"));
    let provision = p.provision.unwrap();
    assert_eq!(provision.path, ProvisionPath::Golden);
    assert_eq!(
        provision.steps[0].args[..3],
        ["clone", "wtx-golden", "vm"]
    );
    assert_eq!(p.repo.unwrap().branch, "main");
}

#[test]
fn warnings_come_in_order_before_the_vm() {
    let dot = DotGit::Missing;
    let extra = vec![Mount {
        location: "/w".into(),
        writable: false,
    }];
    let mut f = facts(&dot, &extra);
    f.mirror_alive = false;
    f.agent_dir_exists = false;
    f.status = "Stopped";
    f.raw = Some("{}");
    let previous = InstanceMeta {
        agent_access: true,
        ..Default::default()
    };
    f.previous = Some(&previous);
    let mut o = opts();
    o.agent_access = true;
    let p = up_inner(&f, &o);
    assert_eq!(
        verbs(&p.before),
        [
            Verb::Complain,
            Verb::Complain,
            Verb::Complain,
            Verb::Write,
            Verb::Complain
        ]
    );
    assert_eq!(
        p.before[0].args[0],
        "wtx: warning: mirror is down - pulls go straight upstream (wtx mirror up)"
    );
    assert_eq!(
        p.before[1].args[0],
        "wtx: warning: --agent-access requested but /h/.crab was not found"
    );
    assert_eq!(
        p.before[2].args[0],
        "wtx: ignoring /w: already mounted automatically"
    );
    assert!(p.before[4].args[0].starts_with("wtx: warning: vm predates"));
    assert_eq!(p.provision.unwrap().path, ProvisionPath::Reattach);
}

#[test]
fn a_refused_vm_is_not_touched() {
    let extra = vec![];
    let check = |f: &UpFacts, o: &UpOpts, expected: &str| {
        let p = up_inner(f, o);
        assert!(p.provision.is_none());
        assert!(p
            .before
            .iter()
            .all(|s| matches!(s.verb, Verb::Complain | Verb::Write | Verb::Fail)));
        assert_eq!(ending(&p.before).as_deref(), Some(expected));
    };
    let dot = DotGit::Directory;
    let mut f = facts(&dot, &extra);
    f.is_dir = false;
    check(&f, &opts(), "workdir not found: /w");

    let broken = DotGit::File("nothing".into());
    check(
        &facts(&broken, &extra),
        &opts(),
        "unrecognized .git file in /w",
    );

    let mut f = facts(&dot, &extra);
    f.dot_error = Some("permission denied");
    check(&f, &opts(), "permission denied");

    let mut f = facts(&dot, &extra);
    f.mount_error = Some("no such directory");
    check(&f, &opts(), "no such directory");

    let mut f = facts(&dot, &extra);
    f.status = "Running";
    let mut o = opts();
    o.agent_access = true;
    check(
        &f,
        &o,
        "vm: existing VM was created without --agent-access; mount policy is immutable, so recreate the VM to opt in",
    );

    let mut o = opts();
    o.from = Some("src".into());
    check(&f, &o, "--from can only seed a new VM");
    check(&facts(&dot, &extra), &o, "--from src: no such VM");
    o.from = Some("vm".into());
    check(
        &facts(&dot, &extra),
        &o,
        "--from vm: cannot seed a VM from itself",
    );
}

#[test]
fn a_running_vm_is_configured_and_recorded() {
    let (dot, extra) = (DotGit::Directory, vec![]);
    let mut f = facts(&dot, &extra);
    f.status = "Running";
    f.quiet = true;
    let previous = InstanceMeta {
        agent_access: true,
        sim_udid: "U".into(),
        ..Default::default()
    };
    f.previous = Some(&previous);
    let p = up_inner(&f, &opts());
    assert!(p.provision.unwrap().steps.is_empty());
    let config = mirror::mirror_config(None);
    let (steps, meta) = up_finish(&f, &opts(), p.repo.as_ref(), &config, "Ada", "a@b");
    assert_eq!(
        verbs(&steps),
        [Verb::Script, Verb::ScriptQuiet, Verb::Script]
    );
    assert_eq!(steps[0].on_fail, OnFail::Warn);
    assert_eq!(steps[0].args[1], mirror::apply_to_vm(&config));
    assert!(steps[1].args[1].contains("user.name 'Ada'"));
    assert!(steps[2].args[1].contains("/.crab"));
    assert_eq!(
        (meta.workdir.as_str(), meta.main_repo.as_str(), meta.branch.as_str()),
        ("/w", "/w", "main")
    );
    assert!(meta.agent_access);
    assert_eq!(meta.sim_udid, "U");
}
