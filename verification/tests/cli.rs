use wtx::cli::{
    covering_target, default_guest_workdir, exec_target, named_value, reattach_dir, up_target,
    OwnerFlags, Target, UpFlags, UpTarget,
};
use wtx::context::Known;
use wtx::lima::InstanceMeta;
use wtx::table;

fn owned(v: &[&str]) -> Vec<String> {
    v.iter().map(|s| s.to_string()).collect()
}

fn meta(workdir: &str) -> InstanceMeta {
    InstanceMeta {
        workdir: workdir.to_string(),
        ..Default::default()
    }
}

#[test]
fn owner_labels_are_structured_and_sorted() {
    let owner = OwnerFlags {
        owner: Some("orca".into()),
        labels: vec!["task_id=task_1".into(), "run_id=run_1".into()],
    }
    .into_owner()
    .unwrap()
    .unwrap();
    assert_eq!(owner.kind, "orca");
    assert_eq!(table::get(&owner.labels, "run_id").unwrap(), "run_1");
    assert_eq!(table::get(&owner.labels, "task_id").unwrap(), "task_1");
    assert_eq!(owner.labels[0].0, "run_id");
}

#[test]
fn owner_label_requires_owner() {
    let err = OwnerFlags {
        owner: None,
        labels: vec!["run_id=run_1".into()],
    }
    .into_owner()
    .err()
    .unwrap();
    assert!(err.to_string().contains("requires --owner"));
}

#[test]
fn bad_owner_flags_are_refused() {
    let fail = |owner: &str, labels: &[&str]| {
        OwnerFlags {
            owner: Some(owner.into()),
            labels: owned(labels),
        }
        .into_owner()
        .err()
        .unwrap()
    };
    assert_eq!(fail(" \t", &[]), "--owner must not be empty");
    assert_eq!(fail("o", &["a=1", "b"]), "owner label must be KEY=VALUE: b");
    assert_eq!(
        fail("o", &["a="]),
        "owner label must have a non-empty key and value: a="
    );
    assert_eq!(
        fail("o", &["=1"]),
        "owner label must have a non-empty key and value: =1"
    );
    assert_eq!(fail("o", &["a=1", "a=2"]), "duplicate owner label: a");
    let none = OwnerFlags {
        owner: None,
        labels: vec![],
    };
    assert!(none.into_owner().unwrap().is_none());
    let values = OwnerFlags {
        owner: Some(" o ".into()),
        labels: owned(&["k=a=b"]),
    };
    let owner = values.into_owner().unwrap().unwrap();
    assert_eq!((owner.kind.as_str(), owner.labels[0].1.as_str()), ("o", "a=b"));
}

#[test]
fn the_old_flag_turns_credentials_off() {
    let flags = |agent: bool, old: bool| UpFlags {
        memory: Some("8".into()),
        cpus: Some(3),
        disk: "30GiB".into(),
        from: None,
        agent_access: agent,
        no_claude: old,
        no_clone: true,
        sim: false,
        sim_device: None,
    };
    let o = flags(true, false).into_opts(owned(&["/m:ro"]));
    assert!(o.agent_access && o.no_clone);
    assert_eq!(o.extra_mounts, ["/m:ro"]);
    assert_eq!((o.cpus, o.memory.as_deref()), (Some(3), Some("8")));
    assert!(!flags(true, true).into_opts(vec![]).agent_access);
}

#[test]
fn exec_takes_a_vm_only_before_a_command() {
    let (t, words) = exec_target(None, owned(&["vm", "ls"]), true);
    assert!(matches!(t, Target::Named(n) if n == "vm"));
    assert_eq!(words, ["ls"]);
    let (t, words) = exec_target(None, owned(&["vm"]), true);
    assert!(matches!(t, Target::Here));
    assert_eq!(words, ["vm"]);
    let (t, words) = exec_target(None, owned(&["ls", "-l"]), false);
    assert!(matches!(t, Target::Here));
    assert_eq!(words, ["ls", "-l"]);
    let (t, words) = exec_target(Some("x"), owned(&["vm", "ls"]), true);
    assert!(matches!(t, Target::Named(n) if n == "x"));
    assert_eq!(words.len(), 2);
}

#[test]
fn commands_run_in_the_matching_directory() {
    assert_eq!(default_guest_workdir(Some("/x".into()), Some("/w/a"), "/w"), "/x");
    assert_eq!(default_guest_workdir(None, Some("/w/a"), "/w"), "/w/a");
    assert_eq!(default_guest_workdir(None, Some("/wa"), "/w"), "/w");
    assert_eq!(default_guest_workdir(None, None, "/w"), "/w");
}

#[test]
fn values_may_follow_a_name() {
    let (t, v) = named_value(None, &owned(&["1:2"])).unwrap();
    assert!(matches!(t, Target::Here));
    assert_eq!(v, "1:2");
    let (t, v) = named_value(None, &owned(&["vm", "1:2"])).unwrap();
    assert!(matches!(t, Target::Named(n) if n == "vm"));
    assert_eq!(v, "1:2");
    assert_eq!(
        named_value(None, &owned(&["a", "b", "c"])).err().unwrap(),
        "expected VALUE or legacy NAME VALUE"
    );
    assert!(named_value(Some("vm"), &owned(&["1:2"])).is_ok());
    assert_eq!(
        named_value(Some("vm"), &owned(&["a", "b"])).err().unwrap(),
        "pass one value when --name is used"
    );
}

#[test]
fn a_single_argument_is_a_directory_or_a_name() {
    let one = |s: &str, dir: bool, vm: bool| up_target(Some(s.to_string()), None, dir, vm);
    assert!(matches!(one("a/b", false, true), UpTarget::Dir(d) if d == "a/b"));
    assert!(matches!(one("a", true, false), UpTarget::Dir(_)));
    assert!(matches!(one("a", true, true), UpTarget::Name(n) if n == "a"));
    assert!(matches!(one("a", false, false), UpTarget::Name(_)));
    assert!(matches!(
        up_target(Some("a".into()), Some("/w".into()), true, false),
        UpTarget::Both(n, w) if n == "a" && w == "/w"
    ));
    assert!(matches!(up_target(None, None, false, false), UpTarget::Here));
    assert_eq!(reattach_dir(Some(&meta("/w"))), "/w");
    assert_eq!(reattach_dir(Some(&meta(""))), ".");
    assert_eq!(reattach_dir(None), ".");
}

#[test]
fn one_vm_covers_the_current_directory() {
    let a: Known = ("a".to_string(), meta("/w"));
    let b: Known = ("b".to_string(), meta("/w"));
    assert_eq!(covering_target(&vec![]).unwrap(), None);
    let one = vec![a];
    assert_eq!(
        covering_target(&one).unwrap(),
        Some(("a".to_string(), "/w".to_string()))
    );
    let two: Vec<Known> = one.into_iter().chain([b]).collect();
    assert_eq!(
        covering_target(&two).err().unwrap(),
        "multiple VMs cover this directory: a, b (pass NAME)"
    );
}
