use wtx::context::{
    all_metas, covering_cwd, instance_of_file, no_metadata, resolve, Known,
};
use wtx::gitiso;
use wtx::inspect::{
    ensure_receipt, ensure_report, inspect, inspect_instance, inspect_receipt, list_instances, ls,
    ls_json, ls_row_tail, simulators_of, Instance,
};
use wtx::json::{self, Json};
use wtx::lima::{EnsureAction, InstanceMeta, PortMap};
use wtx::plan::{OnFail, Verb};
use wtx::remove::{
    not_pruned, prune, prune_preview, pruned, skip_report, remove_instance, remove_linked_worktree, remove_receipt, rm, would_delete,
    RemoveAction, RemoveFacts, RemoveOpts,
};
use wtx::repo::{self, DotGit, RepoFault, RepoKind};

fn meta(workdir: &str) -> InstanceMeta {
    InstanceMeta {
        workdir: workdir.to_string(),
        ..Default::default()
    }
}

fn value(j: &Json) -> serde_json::Value {
    match j {
        Json::Null | Json::Real => serde_json::Value::Null,
        Json::Bool(b) => serde_json::Value::from(*b),
        Json::Num(n) => serde_json::Value::from(*n),
        Json::Str(s) => serde_json::Value::from(s.as_str()),
        Json::Arr(v) => serde_json::Value::Array(v.iter().map(value).collect()),
        Json::Obj(v) => {
            serde_json::Value::Object(v.iter().map(|(k, x)| (k.clone(), value(x))).collect())
        }
    }
}

fn keys(j: &Json) -> Vec<String> {
    match j {
        Json::Obj(v) => v.iter().map(|(k, _)| k.clone()).collect(),
        _ => panic!("expected an object"),
    }
}

fn full_meta() -> InstanceMeta {
    InstanceMeta {
        workdir: "/w".into(),
        main_repo: "/r".into(),
        branch: "main".into(),
        seeded_from: "seed".into(),
        sim_udid: "U".into(),
        sim_devicetype: "iPhone".into(),
        ports: vec![(
            "api".to_string(),
            PortMap {
                host: 42000,
                guest: 3000,
            },
        )],
        agent_access: true,
    }
}

#[test]
fn an_inspection_gathers_what_is_known() {
    let states = vec![("U".to_string(), "Booted".to_string())];
    let x = inspect_instance(
        "vm", &full_meta(), "Running", true, true, "abc", &states, &vec![42000], false, false,
    );
    assert_eq!(
        inspect(&x),
        [
            "vm: Running (ready)",
            "  worktree: /w",
            "  branch: main",
            "  docker: ready",
            "  credentials: host-shared (--agent-access)",
            "  seeded from: seed",
            "  simulator: U (iPhone) [Booted]",
            "  port api: host 42000 -> guest 3000 [armed]",
        ]
    );
    let doc = inspect_receipt(&x);
    assert_eq!(keys(&doc), ["schema_version", "instance"]);
    let v = value(&doc);
    assert_eq!(v["schema_version"], 2);
    assert_eq!(v["instance"]["runtime"]["docker"], "ready");
    assert_eq!(v["instance"]["worktree"]["head"], "abc");
    assert_eq!(v["instance"]["simulator"]["device_type"], "iPhone");
    assert_eq!(v["instance"]["ports"]["api"]["forward_alive"], true);
    assert_eq!(
        keys(&x.to_json()),
        [
            "name", "status", "ready", "runtime", "worktree", "seeded_from", "simulator", "ports",
            "agent_access"
        ]
    );
    let doc = ensure_receipt(EnsureAction::Created, &x);
    assert_eq!(keys(&doc), ["schema_version", "action", "instance"]);
    assert_eq!(value(&doc)["action"], "created");
    assert_eq!(
        ensure_report("vm", EnsureAction::Reused, "/w"),
        [
            "reused: vm is ready",
            "  worktree: /w",
            "  run: wtx shell vm",
            "  remove: wtx rm vm"
        ]
    );
}

#[test]
fn an_inspection_leaves_out_what_is_not_there() {
    let x = inspect_instance("vm", &meta("/w"), "Stopped", true, false, "abc", &vec![], &vec![], false, false);
    assert!(!x.ready);
    assert!(x.worktree.orphaned);
    assert_eq!(x.worktree.head, "");
    assert_eq!(
        inspect(&x),
        [
            "vm: Stopped (not ready)",
            "  worktree: /w",
            "  docker: unavailable",
            "  credentials: host-only",
        ]
    );
    assert_eq!(
        keys(&x.to_json()),
        ["name", "status", "ready", "runtime", "worktree", "ports", "agent_access"]
    );
    assert!(value(&x.to_json())["worktree"].get("head").is_none());
    let x = inspect_instance("vm", &full_meta(), "Running", false, true, "h", &vec![], &vec![], false, false);
    assert!(!x.ready);
    assert_eq!(x.simulator.unwrap().state, "missing");
}

fn listed() -> Vec<Instance> {
    let records: Vec<Known> = vec![
        ("a".to_string(), full_meta()),
        ("b".to_string(), meta("/gone")),
    ];
    list_instances(
        "a\tRunning\nb\tStopped\nc\tStopped\nnoise\n",
        &records,
        &vec!["/gone".to_string()],
        &vec![],
        &vec![],
    )
}

fn flagged() -> Vec<Instance> {
    let records: Vec<Known> = vec![
        ("a".to_string(), meta("/gone")),
        ("b".to_string(), meta("/gone")),
        ("c".to_string(), meta("/w")),
    ];
    list_instances(
        "a\tRunning\nb\tStopped\nc\tStopped\n",
        &records,
        &vec!["/gone".to_string()],
        &vec!["b".to_string()],
        &vec!["b".to_string(), "c".to_string()],
    )
}

#[test]
fn legacy_vms_and_recovery_are_flagged() {
    let rows = flagged();
    let flags: Vec<(bool, bool, bool)> = rows
        .iter()
        .map(|x| (x.orphaned, x.legacy_git, x.recovering))
        .collect();
    assert_eq!(
        flags,
        [(true, false, false), (true, true, true), (false, false, false)]
    );
    assert_eq!(
        ls_row_tail(&rows[1], ""),
        "/gone  (orphaned: workdir gone)  (recovery window started)  (legacy isolated git (commits may exist only inside the VM))"
    );
    match ls_json(&rows, &vec![]) {
        Json::Arr(v) => {
            assert_eq!(value(&v[1])["legacy_git"], true);
            assert_eq!(value(&v[1])["recovering"], true);
            assert_eq!(keys(&v[0]).len(), 6);
        }
        _ => panic!("expected an array"),
    }
    let x = inspect_instance(
        "vm", &meta("/w"), "Stopped", true, false, "", &vec![], &vec![], true, true,
    );
    assert_eq!(
        inspect(&x),
        [
            "vm: Stopped (not ready)",
            "  worktree: /w",
            "  orphaned: recovery window started",
            "  git: legacy isolated git (commits may exist only inside the VM)",
            "  docker: unavailable",
            "  credentials: host-only",
        ]
    );
    assert_eq!(
        keys(&x.to_json())[6..],
        ["agent_access", "legacy_git", "recovering"]
    );
    let here = inspect_instance(
        "vm", &meta("/w"), "Stopped", true, true, "", &vec![], &vec![], false, true,
    );
    assert!(!here.recovering);
}

#[test]
fn legacy_vms_are_not_pruned() {
    let rows = flagged();
    let legacy = vec!["b".to_string()];
    let found = prune(&rows, &legacy);
    let skipped = not_pruned(&rows, &legacy);
    assert_eq!((found.len(), found[0].name.as_str()), (1, "a"));
    assert_eq!((skipped.len(), skipped[0].name.as_str()), (1, "b"));
    let skip = "  skipped b: legacy isolated git (commits may exist only inside the VM); inspect it, then `wtx rm b`";
    assert_eq!(skip_report(&skipped), [skip]);
    assert_eq!(
        prune_preview(&found, &skipped),
        [
            "  would delete a (workdir gone: /gone)",
            skip,
            "re-run with --yes to delete them"
        ]
    );
    assert_eq!(prune_preview(&vec![], &skipped), [skip]);
    assert!(gitiso::is_legacy("refs/wtx/keep/b/main\n"));
    assert!(!gitiso::is_legacy("\n"));
}

#[test]
fn vms_are_listed_with_their_records() {
    let rows = listed();
    assert_eq!(rows.len(), 3);
    assert_eq!((rows[0].name.as_str(), rows[0].repo.as_str()), ("a", "/r"));
    assert!(!rows[0].orphaned && rows[1].orphaned && !rows[2].orphaned);
    assert_eq!(rows[2].workdir, "");
    assert_eq!(simulators_of(&rows), ["U"]);
    let states = vec![("U".to_string(), "Shutdown".to_string())];
    let out = ls(&rows, &states);
    assert_eq!(out[0], format!("{:<24}{:<10}{:<16}", "NAME", "STATUS", "BRANCH"));
    assert_eq!(
        out[1],
        format!("{:<24}{:<10}{:<16}/w  sim:Shutdown", "a", "Running", "main")
    );
    assert_eq!(
        out[2],
        format!("{:<24}{:<10}{:<16}/gone  (orphaned: workdir gone)", "b", "Stopped", "")
    );
    assert_eq!(
        out.last().unwrap(),
        "\norphaned VMs can be cleaned up with `wtx prune`"
    );
    assert_eq!(
        ls(&vec![], &vec![]),
        ["no VMs. Create one with `wtx up NAME WORKDIR`"]
    );
    assert_eq!(ls_row_tail(&rows[0], "x"), "/w  sim:x");
    match ls_json(&rows, &vec![]) {
        Json::Arr(v) => {
            assert_eq!(
                keys(&v[0]),
                [
                    "name", "status", "branch", "workdir", "repo", "orphaned", "sim_udid",
                    "sim_state"
                ]
            );
            assert_eq!(value(&v[0])["sim_state"], "missing");
            assert_eq!(keys(&v[1]).len(), 6);
        }
        _ => panic!("expected an array"),
    }
}

#[test]
fn orphans_are_pruned() {
    let found = prune(&listed(), &vec![]);
    assert_eq!(found.len(), 1);
    assert_eq!(found[0].name, "b");
    assert_eq!(would_delete(&found[0]), "  would delete b (workdir gone: /gone)");
    assert_eq!(
        prune_preview(&found, &vec![]),
        ["  would delete b (workdir gone: /gone)", "re-run with --yes to delete them"]
    );
    assert_eq!(prune_preview(&vec![], &vec![]), ["no orphaned VMs"]);
    assert_eq!(pruned("b", None), "  deleted b");
    assert_eq!(pruned("b", Some("boom")), "  failed to delete b: boom");
}

fn facts<'a>(m: Option<&'a InstanceMeta>, exists: bool, files: &'a Vec<String>) -> RemoveFacts<'a> {
    RemoveFacts {
        home: "/h",
        name: "vm",
        meta: m,
        vm_exists: exists,
        keep_refs: "refs/wtx/keep/vm/a\nrefs/wtx/keep/vm/b\n",
        files,
        workdir_exists: true,
    }
}

#[test]
fn remove_receipt_uses_stable_machine_contract() {
    let receipt = remove_receipt("vm-a", RemoveAction::NotFound);

    let mut expected = serde_json::Map::new();
    expected.insert("schema_version".into(), serde_json::Value::from(2));
    expected.insert("action".into(), serde_json::Value::from("not_found"));
    expected.insert("name".into(), serde_json::Value::from("vm-a"));
    assert_eq!(value(&receipt), serde_json::Value::Object(expected));
    assert_eq!(value(&remove_receipt("vm-a", RemoveAction::Deleted))["action"], "deleted");
}

#[test]
fn a_missing_vm_is_an_error_unless_allowed() {
    let files = vec![];
    let f = facts(None, false, &files);
    let mut opts = RemoveOpts::default();
    assert_eq!(
        remove_instance(&f, opts).err(),
        Some("no such wtx VM: vm".to_string())
    );
    opts.if_exists = true;
    let (removal, line) = rm(&f, opts).unwrap();
    assert_eq!(removal.action, RemoveAction::NotFound);
    assert!(removal.steps.is_empty());
    assert_eq!(line, Some("not_found: vm".to_string()));
}

#[test]
fn a_removal_takes_everything_and_its_record_last() {
    let m = full_meta();
    let files = vec!["/h/.wtx/vm-42000.sock".to_string()];
    let opts = RemoveOpts {
        with_worktree: true,
        if_exists: false,
        json: false,
    };
    let (removal, line) = rm(&facts(Some(&m), true, &files), opts).unwrap();
    assert_eq!(removal.action, RemoveAction::Deleted);
    assert_eq!(line, None);
    let all: Vec<String> = removal
        .steps
        .iter()
        .map(|s| format!("{:?} {}", s.verb, s.args.join(" ")))
        .collect();
    assert_eq!(
        all,
        [
            "Git /r update-ref -d refs/wtx/keep/vm/a",
            "Git /r update-ref -d refs/wtx/keep/vm/b",
            "SshQuiet -S /h/.wtx/vm-42000.sock -O exit lima-vm",
            "Remove /h/.wtx/vm-42000.sock",
            "Xcrun simctl shutdown U",
            "Xcrun simctl delete U",
            "LimactlCapture delete -f vm",
            "RemoveManaged /h/.wtx/vm.yaml",
            "RemoveManaged /h/.wtx/vm.json",
            "GitShown /r worktree remove --force /w",
        ]
    );
    assert_eq!(removal.steps[5].done, "deleted simulator U");
    assert_eq!(removal.steps[9].done, "removed worktree /w");
    assert_eq!(removal.steps[9].on_fail, OnFail::WarnWith);
    assert_eq!(removal.steps[6].on_fail, OnFail::AbortAs);
    assert_eq!(removal.steps[6].note, "limactl delete");
    let opts = RemoveOpts {
        json: true,
        ..RemoveOpts::default()
    };
    let removal = remove_instance(&facts(Some(&m), false, &files), opts).unwrap();
    assert_eq!(removal.steps.len(), 8);
    assert_eq!(removal.steps[5].done, "");
}

#[test]
fn only_linked_worktrees_are_removed() {
    let mut m = meta("/w");
    let steps = remove_linked_worktree("vm", Some(&m), true, false);
    assert_eq!(steps[0].verb, Verb::Complain);
    assert_eq!(
        steps[0].args[0],
        "wtx: vm is not a linked worktree; left /w in place"
    );
    m.main_repo = "/w".into();
    assert_eq!(
        remove_linked_worktree("vm", Some(&m), true, false)[0].verb,
        Verb::Complain
    );
    m.main_repo = "/r".into();
    assert_eq!(
        remove_linked_worktree("vm", Some(&m), false, false)[0].args[0],
        "wtx: worktree /w is already gone"
    );
    let steps = remove_linked_worktree("vm", None, true, false);
    assert_eq!(steps[0].verb, Verb::Fail);
}

#[test]
fn the_closest_vm_covers_a_directory() {
    let known: Vec<Known> = vec![
        ("outer".to_string(), meta("/w")),
        ("inner".to_string(), meta("/w/a")),
        ("twin".to_string(), meta("/w/a")),
        ("near".to_string(), meta("/w/ab")),
        ("noise".to_string(), meta("")),
    ];
    let known = all_metas(&known);
    assert_eq!(known.len(), 4);
    let names = |dir: &str| -> Vec<String> {
        covering_cwd(dir, &known).into_iter().map(|(n, _)| n).collect()
    };
    assert_eq!(names("/w/a/x"), ["inner", "twin"]);
    assert_eq!(names("/w/abc"), ["outer"]);
    assert_eq!(names("/w"), ["outer"]);
    assert!(names("/v").is_empty());
    let found = covering_cwd("/w/b", &known);
    assert_eq!(resolve(None, None, "/w/b", &found).unwrap().0, "outer");
    let found = covering_cwd("/w/a", &known);
    assert_eq!(
        resolve(None, None, "/w/a", &found).err(),
        Some("multiple VMs cover this directory: inner, twin (pass NAME)".to_string())
    );
    assert_eq!(
        resolve(None, None, "/v", &vec![]).err(),
        Some(
            "no wtx VM covers /v (run inside a worktree that has one, or pass NAME)".to_string()
        )
    );
    assert_eq!(resolve(Some("x"), Some(meta("/x")), "", &vec![]).unwrap().0, "x");
    assert_eq!(resolve(Some("x"), None, "", &vec![]).err(), Some(no_metadata("x")));
    assert_eq!(no_metadata("x"), "no metadata for x (is it a wtx VM?)");
}

#[test]
fn records_are_json_files() {
    assert_eq!(instance_of_file("/h/.wtx/vm.json"), Some("vm".to_string()));
    assert_eq!(instance_of_file("/h/.wtx/a.b.json"), Some("a.b".to_string()));
    assert_eq!(instance_of_file("/h/.wtx/.json"), None);
    assert_eq!(instance_of_file("/h/.wtx/vm.yaml"), None);
}

#[test]
fn repositories_and_worktrees_are_told_apart() {
    let r = repo::inspect_repo("/w", &DotGit::Directory, Some("ref: refs/heads/main\n"));
    let r = r.unwrap().unwrap();
    assert_eq!(r.kind, RepoKind::Normal);
    assert_eq!(
        (r.host_git.as_str(), r.host_repo.as_str(), r.branch.as_str()),
        ("/w/.git", "/w", "main")
    );
    let dot = DotGit::File("gitdir: /src/app/.git/worktrees/feat\n".to_string());
    assert_eq!(
        repo::find_git_dir("/w", &dot),
        Some("/src/app/.git/worktrees/feat".to_string())
    );
    let r = repo::inspect_repo("/w", &dot, Some("ref: refs/heads/feat")).unwrap().unwrap();
    assert_eq!(r.kind, RepoKind::Worktree);
    assert_eq!(
        (r.host_git.as_str(), r.host_repo.as_str(), r.branch.as_str()),
        ("/src/app/.git", "/src/app", "feat")
    );
    let r = gitiso::inspect_repo("/w", &dot, None).unwrap().unwrap();
    assert_eq!((r.worktree_name.as_str(), r.branch.as_str()), ("feat", ""));
    let dot = DotGit::File("gitdir: ../app/.git/worktrees/x".to_string());
    assert_eq!(
        repo::inspect_repo("/w", &dot, None).unwrap().unwrap().host_git,
        "/w/../app/.git"
    );
    assert!(repo::inspect_repo("/w", &DotGit::Missing, None).unwrap().is_none());
    let bad = DotGit::File("nothing".to_string());
    assert_eq!(repo::inspect_repo("/w", &bad, None).err(), Some(RepoFault::Unrecognized));
    let bad = DotGit::File("gitdir: /".to_string());
    assert_eq!(repo::inspect_repo("/w", &bad, None).err(), Some(RepoFault::BadPointer));
    assert_eq!(
        RepoFault::Unrecognized.message("/w"),
        "unrecognized .git file in /w"
    );
    assert_eq!(RepoFault::BadPointer.message("/w"), "bad gitdir pointer");
}

#[test]
fn isolation_scripts_quote_their_values() {
    let r = gitiso::RepoInfo {
        kind: RepoKind::Worktree,
        host_git: "/r/.git".into(),
        host_repo: "/r".into(),
        worktree_name: "feat".into(),
        branch: "it's".into(),
    };
    let s = gitiso::setup_isolated_git("vm", &r, "/w t");
    assert!(s.starts_with(
        "set -eu\nWT='/w t'\nGITDIR='/r/.git'\nNAME='vm'\nN='feat'\nBRANCH='it'\\''s'\nLOCAL=/var/lib/wtx/git/$NAME\nBASE=/run/wtx/base.git\n\n# A marker"
    ));
    assert!(s.contains("touch \"$LOCAL/.wtx-local\"\n  mkdir -p \"$LOCAL/worktrees/$N\"\n"));
    assert!(s.ends_with("sudo systemctl enable -q wtx-gitmount.service\n"));
    let r = gitiso::RepoInfo {
        kind: RepoKind::Normal,
        ..r
    };
    let s = gitiso::setup_isolated_git("vm", &r, "/w");
    assert!(s.contains("touch \"$LOCAL/.wtx-local\"\nfi\n"));
}

#[test]
fn branch_tips_are_pinned_and_released() {
    let steps = gitiso::pin_host_objects("/r", "vm", "abc main\nbroken\ndef feat/x\n");
    let all: Vec<String> = steps.iter().map(|s| s.args.join(" ")).collect();
    assert_eq!(
        all,
        [
            "/r update-ref refs/wtx/keep/vm/main abc",
            "/r update-ref refs/wtx/keep/vm/feat/x def",
        ]
    );
    assert_eq!(gitiso::unpin_host_objects("/r", " \n").len(), 0);
    assert_eq!(
        gitiso::keep_refs_args("vm"),
        ["for-each-ref", "--format=%(refname)", "refs/wtx/keep/vm/"]
    );
    assert_eq!(gitiso::vm_git_path("vm"), "/var/lib/wtx/git/vm");
    let listing = "abc main\ndef feat\n";
    assert_eq!(gitiso::branch_tips(listing), ["abc", "def"]);
    assert_eq!(
        gitiso::unfetched_branches(listing, &vec!["def".to_string()]),
        ["feat"]
    );
    assert!(gitiso::branch_tips_command("vm").starts_with("git -C '/var/lib/wtx/git/vm' for-each"));
}

#[test]
fn unpinning_deletes_the_refs_that_pinning_wrote() {
    let mut refs = vec!["refs/heads/main".to_string(), "refs/wtx/keep/vm-dev/main".to_string()];
    let before = refs.clone();
    for tips in ["abc main\n", "def main\nfed feat/x\n"] {
        for s in gitiso::pin_host_objects("/r", "vm", tips) {
            if !refs.contains(&s.args[2]) {
                refs.push(s.args[2].clone());
            }
        }
    }
    assert_eq!(refs.len(), 4);
    let prefix = gitiso::keep_refs_args("vm").pop().unwrap();
    let printed: String = refs
        .iter()
        .filter(|r| r.starts_with(&prefix))
        .map(|r| format!("{r}\n"))
        .collect();
    for s in gitiso::unpin_host_objects("/r", &printed) {
        assert_eq!(s.args[..3], ["/r", "update-ref", "-d"]);
        refs.retain(|r| *r != s.args[3]);
    }
    assert_eq!(refs, before);
}

#[test]
fn branches_are_fetched_from_the_right_place() {
    let s = gitiso::sync("/h", "vm", "/w", "main", true, true);
    assert_eq!(
        s.ssh_command,
        "ssh -F '/h/.lima/vm/ssh.config' -o ControlMaster=no -o ControlPath=none"
    );
    assert_eq!(
        s.args,
        ["fetch", "lima-vm:/var/lib/wtx/git/vm", "+refs/heads/*:refs/wtx/vm/*"]
    );
    assert_eq!(
        s.line.unwrap(),
        "to merge: git -C /w merge --ff-only refs/wtx/vm/main"
    );
    let s = gitiso::sync("/h", "vm", "/w", "main", false, false);
    assert_eq!(s.args[1], "lima-vm:/w");
    assert!(s.line.unwrap().contains("the worktree is gone"));
    assert!(gitiso::sync("/h", "vm", "/w", "", false, true).line.is_none());
}

#[test]
fn json_documents_are_parsed() {
    let j = json::parse("{\"b\": [1, -2, 2.5, 18446744073709551615, null], \"a\": {\"x\": true}}")
        .unwrap();
    assert_eq!(keys(&j), ["a", "b"]);
    assert_eq!(
        json::as_flag(json::get(json::get(&j, "a").unwrap(), "x")),
        Some(true)
    );
    let list = json::as_list(json::get(&j, "b")).unwrap();
    assert_eq!(json::as_number(Some(&list[1])), Some(-2));
    assert!(matches!(list[2], Json::Real));
    assert!(matches!(list[3], Json::Real));
    assert!(matches!(list[4], Json::Null));
    assert!(json::get(&j, "c").is_none());
    assert!(json::as_text(json::get(&j, "a")).is_none());
    assert!(json::parse("{").is_none());
}
