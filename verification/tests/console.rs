use wtx::inspect::Instance;
use wtx::mirror;
use wtx::screen::{
    centered, compact_path, draw, empty_message_area, fit, fit_measured, render_row, Area, Frame,
    Ink, Piece,
};
use wtx::tui::{mirror_line, App, Confirm, Effect, Key, Msg, Op, Row};
use wtx::update::UpdateStatus;

fn available_update(version: &str) -> UpdateStatus {
    UpdateStatus {
        schema_version: 1,
        current_version: "0.9.0".into(),
        latest_version: version.into(),
        update_available: true,
        release_url: "https://example.test/release".into(),
    }
}

fn app(update_available: Option<UpdateStatus>) -> App {
    let mut app = App::empty(update_available, 0);
    app.mirror_line = "mirror[manual]".into();
    app
}

fn line(pieces: &[Piece]) -> String {
    pieces.iter().map(|p| p.text.as_str()).collect()
}

fn rendered(app: &App) -> String {
    let frame: Frame = draw(app, 0, None);
    let mut out = line(&frame.title);
    out.push('\n');
    out.push_str(&frame.header);
    out.push('\n');
    for r in &frame.rows {
        out.push_str(&line(r));
        out.push('\n');
    }
    out.push_str(&frame.detail);
    out.push('\n');
    out.push_str(&frame.status);
    out.push('\n');
    if let Some(m) = &frame.modal {
        for l in &m.lines {
            out.push_str(&line(l));
            out.push('\n');
        }
    }
    out
}

fn vm(name: &str, repo: &str, status: &str) -> Instance {
    Instance {
        name: name.into(),
        status: status.into(),
        branch: "main".into(),
        workdir: format!("/w/{name}"),
        repo: repo.into(),
        orphaned: false,
        sim_udid: String::new(),
        legacy_git: false,
        recovering: false,
    }
}

fn three() -> App {
    App::new(
        None,
        vec![
            vm("z", "/r/b", "Stopped"),
            vm("loose", "", "Running"),
            vm("a", "/r/b", "Running"),
            vm("m", "/r/a", "Stopped"),
        ],
        vec![],
        "mirror[manual]".into(),
        0,
    )
}

fn names(app: &App) -> Vec<String> {
    app.rows
        .iter()
        .map(|r| match r {
            Row::Group { key, vms, running } => format!("{key} {running}/{vms}"),
            Row::Vm(i) => i.name.clone(),
        })
        .collect()
}

#[test]
fn update_notice_is_actionable_from_the_tui() {
    let mut app = app(Some(available_update("1.0.0")));

    assert!(rendered(&app).contains("v1.0.0 available — press u to upgrade"));
    app.prompt_upgrade();
    assert!(matches!(
        app.confirm.as_ref(),
        Some(Confirm::Upgrade(version)) if version == "1.0.0"
    ));
    assert!(rendered(&app).contains("Upgrade wtx to v1.0.0 ?"));
}

#[test]
fn successful_upgrade_clears_notice_and_requests_restart() {
    let mut app = app(Some(available_update("1.0.0")));
    app.upgrading = Some(("1.0.0".into(), 0));

    app.handle(
        Msg::UpgradeDone {
            version: "1.0.0".into(),
            error: None,
        },
        0,
    );

    assert!(app.upgrading.is_none());
    assert!(app.update_available.is_none());
    assert!(!app.status_err);
    assert!(app.status.contains("restart wtx"));
}

#[test]
fn failed_upgrade_keeps_notice_for_retry() {
    let mut app = app(Some(available_update("1.0.0")));
    app.upgrading = Some(("1.0.0".into(), 0));

    app.handle(
        Msg::UpgradeDone {
            version: "1.0.0".into(),
            error: Some("brew failed".into()),
        },
        0,
    );

    assert!(app.upgrading.is_none());
    assert!(app.update_available.is_some());
    assert!(app.status_err);
    assert!(app.status.contains("brew failed"));
}

#[test]
fn vms_are_grouped_by_project_in_order() {
    let a = three();
    assert_eq!(
        names(&a),
        ["/r/a 0/1", "m", "/r/b 1/2", "a", "z", " 1/1", "loose"]
    );
    assert_eq!(a.selected, Some(0));
}

#[test]
fn folding_twice_changes_nothing() {
    let mut a = three();
    let before = names(&a);
    assert!(a.on_key(Key::Char(' '), 0).is_empty());
    assert_eq!(names(&a)[..2], ["/r/a 0/1", "/r/b 1/2"]);
    assert_eq!(a.selected, Some(0));
    a.on_key(Key::Enter, 0);
    assert_eq!(names(&a), before);
    a.on_key(Key::Down, 0);
    assert!(!a.toggle_group());
}

#[test]
fn the_selection_follows_the_selected_vm() {
    let mut a = three();
    a.on_key(Key::Char('G'), 0);
    assert_eq!(a.selected_vm().unwrap().name, "loose");
    a.handle(
        Msg::Refreshed {
            instances: vec![vm("loose", "", "Stopped"), vm("b", "/r/b", "Running")],
            sim_states: vec![],
            mirror_line: "m".into(),
        },
        77,
    );
    assert_eq!(a.selected_vm().unwrap().name, "loose");
    assert_eq!((a.selected, a.last_refresh), (Some(3), 77));
    a.apply(vec![vm("b", "/r/b", "Running")], vec![], "m".into(), 78);
    assert_eq!(a.selected, Some(1));
    a.apply(vec![], vec![], "m".into(), 79);
    assert_eq!(a.selected, None);
    assert!(a.selected_key().is_none());
}

#[test]
fn moving_stays_within_the_rows() {
    let mut a = three();
    a.on_key(Key::Up, 0);
    assert_eq!(a.selected, Some(0));
    for _ in 0..20 {
        a.on_key(Key::Char('j'), 0);
    }
    assert_eq!(a.selected, Some(6));
    a.on_key(Key::Char('k'), 0);
    assert_eq!(a.selected, Some(5));
    a.on_key(Key::Char('g'), 0);
    assert_eq!(a.selected, Some(0));
    let mut empty = App::empty(None, 0);
    empty.on_key(Key::Char('j'), 0);
    empty.on_key(Key::Char('G'), 0);
    assert_eq!(empty.selected, None);
}

#[test]
fn a_vm_has_one_operation_at_a_time() {
    let mut a = three();
    a.on_key(Key::Down, 0);
    let effects = a.on_key(Key::Char('s'), 10);
    assert!(matches!(&effects[..], [Effect::Operate(n, Op::Start)] if n == "m"));
    assert!(a.busy("m"));
    for key in [Key::Char('s'), Key::Char('d'), Key::Enter] {
        assert!(a.on_key(key, 11).is_empty());
        assert!(a.status.contains("m"));
        assert!(a.confirm.is_none());
    }
    let effects = a.handle(
        Msg::OpDone {
            name: "m".into(),
            op: Op::Start,
            error: Some("boom".into()),
        },
        12,
    );
    assert!(matches!(&effects[..], [Effect::Clear, Effect::Refresh]));
    assert!(!a.busy("m"));
    assert_eq!(a.status, "start m failed: boom");
    assert!(a.status_err);
}

#[test]
fn a_running_vm_is_stopped_or_entered() {
    let mut a = three();
    for _ in 0..3 {
        a.on_key(Key::Down, 0);
    }
    assert_eq!(a.selected_vm().unwrap().name, "a");
    let effects = a.on_key(Key::Enter, 0);
    assert!(matches!(&effects[..], [Effect::Shell(n)] if n == "a"));
    let effects = a.on_key(Key::Char('s'), 0);
    assert!(matches!(&effects[..], [Effect::Operate(n, Op::Stop)] if n == "a"));
    a.on_key(Key::Down, 0);
    assert!(a.on_key(Key::Enter, 0).is_empty());
    assert_eq!(a.status, "z is not running — press s to start it");
}

#[test]
fn deletion_is_confirmed_or_cancelled() {
    let mut a = three();
    a.on_key(Key::Char('d'), 0);
    assert_eq!(a.status, "select a VM first");
    a.on_key(Key::Down, 0);
    a.on_key(Key::Char('d'), 0);
    assert!(rendered(&a).contains(" Delete m ?"));
    assert!(a.on_key(Key::Char('n'), 0).is_empty());
    assert_eq!(a.status, "cancelled");
    a.on_key(Key::Char('d'), 0);
    a.on_key(Key::Char('q'), 0);
    assert!(a.confirm.is_none());
    a.on_key(Key::Char('d'), 0);
    let effects = a.on_key(Key::Char('y'), 0);
    assert!(matches!(&effects[..], [Effect::Operate(n, Op::Delete)] if n == "m"));
}

#[test]
fn the_console_does_not_quit_during_an_upgrade() {
    let mut a = app(Some(available_update("1.0.0")));
    a.on_key(Key::Char('u'), 0);
    let effects = a.on_key(Key::Char('y'), 5);
    assert!(matches!(&effects[..], [Effect::Upgrade(v)] if v == "1.0.0"));
    assert_eq!(a.upgrading, Some(("1.0.0".to_string(), 5)));
    assert!(a.on_key(Key::Esc, 6).is_empty());
    a.on_key(Key::Char('u'), 6);
    assert!(a.confirm.is_none());
    a.handle(
        Msg::UpgradeDone {
            version: "1.0.0".into(),
            error: None,
        },
        7,
    );
    assert!(matches!(&a.on_key(Key::Char('q'), 8)[..], [Effect::Quit]));
}

#[test]
fn the_state_is_collected_every_five_seconds() {
    let mut a = App::empty(None, 1000);
    assert!(a.idle(6000).is_empty());
    assert!(a.idle(0).is_empty());
    assert!(matches!(&a.idle(6001)[..], [Effect::Refresh]));
    assert!(a.refreshing);
    assert!(a.idle(9000).is_empty());
    a.refreshing = false;
    assert!(matches!(&a.left_shell("m", None)[..], [Effect::Refresh]));
    assert_eq!(a.status, "left the shell on m");
    a.left_shell("m", Some("boom"));
    assert_eq!(a.status, "shell: boom");
    assert!(a.status_err);
    a.refreshing = false;
    assert!(matches!(&a.on_key(Key::Char('r'), 0)[..], [Effect::Refresh]));
    assert_eq!(a.status, "refreshing…");
}

#[test]
fn an_update_check_shows_only_a_newer_release() {
    let mut a = app(None);
    a.handle(Msg::UpdateChecked(available_update("1.0.0")), 0);
    assert!(a.update_available.is_some());
    let mut same = available_update("0.9.0");
    same.update_available = false;
    a.handle(Msg::UpdateChecked(same), 0);
    assert!(a.update_available.is_none());
}

#[test]
fn texts_are_cut_to_their_column() {
    assert_eq!(fit("abc", 5), "abc  ");
    assert_eq!(fit("abcde", 5), "abcde");
    assert_eq!(fit("abcdef", 5), "abcd…");
    assert_eq!(fit("日本語", 5), "日本…");
    assert_eq!(fit("日本語", 4), "日… ");
    assert_eq!(fit("日本語", 6), "日本語");
    assert_eq!(fit_measured("ab", 4, &vec![2, 2], 3), "a…");
    assert_eq!(fit("\u{17D8}\u{17D8}", 5), "\u{17D8}… ");
    assert_eq!(fit("a\u{301}b", 2), "a\u{301}b");
}

#[test]
fn rows_show_what_their_vm_does() {
    let mut a = App::new(
        None,
        vec![Instance {
            orphaned: true,
            sim_udid: "U".into(),
            ..vm("m", "/home/me/r", "Running")
        }],
        vec![("U".to_string(), "Booted".to_string())],
        "x".into(),
        0,
    );
    let group = render_row(&a, &a.rows[0], 0, Some("/home/me"));
    assert_eq!(line(&group), "▾ r  ~/r  [1/1 running]");
    assert_eq!(group[0].ink, Ink::Heading);
    let row = render_row(&a, &a.rows[1], 0, None);
    assert_eq!(
        line(&row),
        format!("  {:<24}{:<14}{:<16}{:<12}orphaned", "m", "Running", "main", "sim:Booted")
    );
    let inks: Vec<Ink> = row.iter().map(|p| p.ink).collect();
    assert_eq!(inks, [Ink::Plain, Ink::Good, Ink::Plain, Ink::Good, Ink::Alarm]);
    a.spawn_op("m", Op::Stop, 1000);
    let row = render_row(&a, &a.rows[1], 3120, None);
    assert_eq!(row[1].text, format!("{:<14}", "⠧ stop 2s"));
    assert_eq!(row[1].ink, Ink::Notice);
    a.on_key(Key::Down, 0);
    let frame = draw(&a, 3120, None);
    assert_eq!(
        frame.detail,
        "workdir : /w/m\nrepo    : /home/me/r\nsim     : U (Booted)\nop      : stop in progress (2s)\nORPHANED: the worktree is gone (commits are on the host; delete when done)"
    );
}

#[test]
fn rows_flag_recovery_and_legacy_git() {
    let mut a = App::new(
        None,
        vec![Instance {
            orphaned: true,
            legacy_git: true,
            recovering: true,
            ..vm("m", "/r", "Stopped")
        }],
        vec![],
        "x".into(),
        0,
    );
    let row = render_row(&a, &a.rows[1], 0, None);
    assert!(line(&row).ends_with("orphaned recovering legacy-git"));
    let inks: Vec<Ink> = row[4..].iter().map(|p| p.ink).collect();
    assert_eq!(inks, [Ink::Alarm, Ink::Notice, Ink::Alarm]);
    a.on_key(Key::Down, 0);
    assert_eq!(
        draw(&a, 0, None).detail,
        "workdir : /w/m\nrepo    : /r\nORPHANED: the worktree is gone\nrecovery: recovery window started\ngit     : legacy isolated git (commits may exist only inside the VM)"
    );
}

#[test]
fn frames_are_complete() {
    let mut a = three();
    a.set_status("oops".into(), true);
    let frame = draw(&a, 0, None);
    assert_eq!(frame.rows.len(), 7);
    assert_eq!(frame.status, " oops");
    assert_eq!(frame.status_ink, Ink::Bad);
    assert!(frame.modal.is_none());
    assert_eq!(
        frame.detail,
        "project : /r/a\nVMs     : 1 (0 running)\nnew VM  : wtx up <name> <worktree>"
    );
    assert!(frame.header.contains("NAME"));
    let empty = draw(&App::empty(None, 0), 0, None);
    assert_eq!(
        empty.detail,
        "No VMs yet. Create one with `wtx up NAME WORKDIR`"
    );
    assert_eq!(compact_path("/home/me/x/home/me", Some("/home/me")), "~/x/home/me");
    assert_eq!(compact_path("/x", None), "/x");
}

#[test]
fn boxes_are_centered_and_stay_inside() {
    let area = Area { x: 2, y: 3, width: 100, height: 18 };
    assert_eq!(
        centered(64, 7, area),
        Area { x: 20, y: 8, width: 64, height: 7 }
    );
    let small = Area { x: 1, y: 1, width: 10, height: 3 };
    assert_eq!(centered(64, 7, small), small);
    assert_eq!(
        empty_message_area(area),
        Area { x: 2, y: 11, width: 100, height: 2 }
    );
}

#[test]
fn the_title_lists_the_mirrors() {
    let config = mirror::mirror_config(Some("{\"a.io\": 1, \"b.io\": 2}"));
    assert_eq!(mirror_line(false, &config, &vec![2]), "mirror[manual]  ○a.io  ●b.io");
    assert_eq!(mirror_line(true, &vec![], &vec![]), "mirror[launchd]  ");
}
