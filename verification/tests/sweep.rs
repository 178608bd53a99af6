use wtx::cache::{
    evictions, gc_line, limit_bytes, limit_gib, limit_path, limit_text, Blob, DEFAULT_GIB, GIB,
};
use wtx::inspect::Instance;
use wtx::sweep::{
    delete_notice, forget_mark, stop_notice, sweep, sweep_path, Sweep, SweepFacts, INTERVAL_SECS, RECOVERY_SECS,
};

const NOW: u64 = 10_000_000;

fn vm(name: &str, status: &str, orphaned: bool) -> Instance {
    Instance {
        name: name.into(),
        status: status.into(),
        branch: String::new(),
        workdir: format!("/w/{name}"),
        repo: String::new(),
        orphaned,
        sim_udid: String::new(),
        legacy_git: false,
        recovering: false,
    }
}

fn names(list: &[&str]) -> Vec<String> {
    list.iter().map(|s| s.to_string()).collect()
}

fn marks(list: &[(&str, u64)]) -> Vec<(String, u64)> {
    list.iter().map(|(n, t)| (n.to_string(), *t)).collect()
}

fn swept(rows: &Vec<Instance>, marked: &[(&str, u64)], legacy: &[&str], exempt: &[&str]) -> Sweep {
    let (marked, legacy, exempt) = (marks(marked), names(legacy), names(exempt));
    let facts = SweepFacts {
        rows,
        marks: &marked,
        legacy: &legacy,
        exempt: &exempt,
        now: NOW,
    };
    sweep(&facts, None, None).unwrap()
}

#[test]
fn an_orphan_is_stopped_first_and_deleted_after_a_week() {
    let rows = vec![vm("a", "Running", true), vm("b", "Stopped", true), vm("c", "Running", false)];
    let first = swept(&rows, &[], &[], &[]);
    assert_eq!(first.stop, ["a"]);
    assert!(first.delete.is_empty() && first.unmark.is_empty());
    assert_eq!(first.marks, marks(&[("a", NOW), ("b", NOW)]));

    let early = swept(&rows, &[("a", NOW - RECOVERY_SECS + 1), ("b", NOW)], &[], &[]);
    assert!(early.stop.is_empty() && early.delete.is_empty());
    assert_eq!(early.marks.len(), 2);

    let late = swept(&rows, &[("a", NOW - RECOVERY_SECS), ("b", NOW + 1)], &[], &[]);
    assert_eq!(late.delete, ["a"]);
    assert!(late.stop.is_empty());
}

#[test]
fn a_worktree_that_returns_clears_the_mark() {
    let rows = vec![vm("a", "Stopped", false), vm("b", "Stopped", true)];
    let found = swept(&rows, &[("a", 1), ("b", NOW), ("gone", 1)], &[], &["a"]);
    assert_eq!(found.unmark, ["a", "gone"]);
    assert_eq!(found.marks, marks(&[("b", NOW)]));
    assert!(found.delete.is_empty());
}

#[test]
fn a_removed_vm_leaves_no_mark_behind() {
    let marked = marks(&[("a", 1), ("a-dev", 2), ("b", 3), ("a", 4)]);
    assert_eq!(forget_mark(&marked, "a"), marks(&[("a-dev", 2), ("b", 3)]));
    assert_eq!(forget_mark(&marked, "c"), marked);
    assert!(forget_mark(&vec![], "a").is_empty());

    let rows = vec![vm("a", "Running", true)];
    assert_eq!(swept(&rows, &[("a", 1)], &[], &[]).delete, ["a"]);
    let kept = forget_mark(&marks(&[("a", 1)]), "a");
    let none = vec![];
    let facts = SweepFacts {
        rows: &rows,
        marks: &kept,
        legacy: &none,
        exempt: &none,
        now: NOW,
    };
    let again = sweep(&facts, None, None).unwrap();
    assert_eq!(again.stop, ["a"]);
    assert!(again.delete.is_empty());
    assert_eq!(again.marks, marks(&[("a", NOW)]));
}

#[test]
fn exempt_and_legacy_vms_survive_a_sweep() {
    let rows = vec![
        vm("target", "Running", true),
        vm("source", "Running", true),
        vm("old", "Running", true),
    ];
    let found = swept(&rows, &[("target", 1)], &["old"], &["target", "source"]);
    assert_eq!(found.stop, ["old"]);
    assert!(found.delete.is_empty());
    assert_eq!(found.marks, marks(&[("target", 1), ("old", NOW)]));
    let found = swept(&rows, &[("target", 1), ("old", 1)], &["old"], &["target", "source"]);
    assert!(found.stop.is_empty() && found.delete.is_empty());
}

#[test]
fn sweeps_are_an_hour_apart_and_can_be_turned_off() {
    let (rows, none, marked) = (vec![], vec![], vec![]);
    let facts = SweepFacts {
        rows: &rows,
        marks: &marked,
        legacy: &none,
        exempt: &none,
        now: NOW,
    };
    assert!(sweep(&facts, Some(NOW - INTERVAL_SECS), None).is_some());
    assert!(sweep(&facts, Some(NOW - INTERVAL_SECS + 1), None).is_none());
    assert!(sweep(&facts, Some(NOW + 5), None).is_none());
    assert!(sweep(&facts, None, Some("1")).is_none());
    assert!(sweep(&facts, None, Some("0")).is_some());
    assert_eq!(sweep_path("/h"), "/h/.wtx/orphan-sweep.json");
    assert!(stop_notice("a", false, None).ends_with("it is deleted after 7 days)"));
    assert!(stop_notice("a", true, None).ends_with("inspect it, then remove it)"));
    assert_eq!(
        stop_notice("a", true, Some("boom")),
        "wtx: warning: orphaned VM a not stopped: boom"
    );
    assert_eq!(delete_notice("a", None), "wtx: deleted orphaned VM a");
    assert_eq!(
        delete_notice("a", Some("boom")),
        "wtx: warning: orphaned VM a not deleted: boom"
    );
}

fn blob(file: &str, size: u64, written: u64) -> Blob {
    Blob {
        file: file.into(),
        size,
        written,
    }
}

#[test]
fn the_oldest_blobs_leave_until_the_rest_fits() {
    let cached = vec![blob("b", 4, 20), blob("a", 3, 10), blob("c", 5, 30), blob("b2", 1, 20)];
    assert!(evictions(&cached, 13).is_empty());
    assert_eq!(evictions(&cached, 12), ["a"]);
    assert_eq!(evictions(&cached, 10), ["a"]);
    assert_eq!(evictions(&cached, 9), ["a", "b"]);
    assert_eq!(evictions(&cached, 5), ["a", "b", "b2"]);
    assert_eq!(evictions(&cached, 0), ["a", "b", "b2", "c"]);
    assert!(evictions(&vec![], 0).is_empty());
    let huge = vec![blob("x", u64::MAX, 1), blob("y", u64::MAX, 2)];
    assert_eq!(evictions(&huge, u64::MAX), ["x"]);
}

#[test]
fn the_limit_is_kept_and_has_a_default() {
    assert_eq!(limit_gib(None), DEFAULT_GIB);
    assert_eq!(limit_gib(Some("x")), 20);
    assert_eq!(limit_gib(Some(limit_text(7).as_str())), 7);
    assert_eq!(limit_bytes(20), 20 * GIB);
    assert_eq!(limit_bytes(u64::MAX), u64::MAX);
    assert_eq!(limit_path("/h"), "/h/.wtx/mirror-limit");
    assert_eq!(gc_line(3, 20), "mirror: removed 3 blobs (limit 20 GiB)");
}
