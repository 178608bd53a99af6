use wtx::creds;
use wtx::plan::{self, After, OnFail, Step, Verb};
use wtx::sshx::{
    capture_args, capture_error, close_all_forwards, docker_ready, docker_timeout, drop_forward,
    ensure_forward, exec, forward, forward_socket_path, forward_socket_port, master_check_args,
    parse_port_spec, script_error, shell, unforward, vm_script, wait_docker_ready, PortFault,
    PortSpec, Wait,
};

const BASE: [&str; 6] = [
    "-F",
    "/h/.lima/vm/ssh.config",
    "-o",
    "ControlMaster=no",
    "-o",
    "ControlPath=none",
];

fn with_base(rest: &[&str]) -> Vec<String> {
    BASE.iter().chain(rest).map(|s| s.to_string()).collect()
}

#[test]
fn port_spec_is_always_host_then_guest() {
    assert_eq!(
        parse_port_spec("8080:3000").unwrap(),
        PortSpec {
            host: 8080,
            guest: 3000,
        }
    );
}

#[test]
fn port_spec_rejects_paths_and_zero() {
    assert!(parse_port_spec("../../x:3000").is_err());
    assert!(parse_port_spec("0:3000").is_err());
}

#[test]
fn each_port_fault_has_its_input() {
    assert_eq!(parse_port_spec("8080"), Err(PortFault::Form));
    assert_eq!(parse_port_spec("x:1"), Err(PortFault::Host));
    assert_eq!(parse_port_spec("1:65536"), Err(PortFault::Guest));
    assert_eq!(parse_port_spec("1:0"), Err(PortFault::Range));
    assert_eq!(PortFault::Form.message("8080"), "port spec must be HOST:GUEST");
    assert_eq!(PortFault::Host.message("x:1"), "invalid host port in x:1");
    assert_eq!(PortFault::Guest.message("1:y"), "invalid guest port in 1:y");
    assert_eq!(PortFault::Range.message("0:0"), "ports must be between 1 and 65535");
    assert!(matches!(unforward("/h", "vm", "http"), Err(PortFault::Bound)));
    assert!(matches!(unforward("/h", "vm", "0"), Err(PortFault::BoundRange)));
    assert_eq!(PortFault::Bound.message("http"), "invalid bound port: http");
    assert_eq!(PortFault::BoundRange.message("0"), "port must be between 1 and 65535");
}

#[test]
fn forward_socket_requires_an_exact_vm_name_and_numeric_port() {
    assert_eq!(forward_socket_port("api", "api-42000.sock"), Some(42000));
    assert_eq!(forward_socket_port("api-dev", "api-dev-42000.sock"), Some(42000));
    assert_eq!(forward_socket_port("api", "api-dev-42000.sock"), None);
    assert_eq!(forward_socket_port("api", "api-bad.sock"), None);
}

#[test]
fn a_socket_path_reads_back_as_its_port() {
    let path = forward_socket_path("/h", "api", 42000);
    assert_eq!(path, "/h/.wtx/api-42000.sock");
    assert_eq!(forward_socket_port("api", &path), Some(42000));
    assert_eq!(forward_socket_port("ap", &path), None);
}

#[test]
fn scripts_end_their_last_line() {
    let call = vm_script("/h", "vm", "true");
    assert_eq!(call.args, with_base(&["lima-vm", "--", "bash", "-s"]));
    assert_eq!(call.input, "true\n");
    assert_eq!(vm_script("/h", "vm", "true\n").input, "true\n");
    assert_eq!(script_error(Some(3)), "remote script failed (exit Some(3))");
    assert_eq!(script_error(None), "remote script failed (exit None)");
}

#[test]
fn credentials_follow_the_script_on_a_line_of_their_own() {
    let call = creds::copy_claude_creds("/h", "vm", "crab");
    let file = ".crab/.credentials.json";
    assert_eq!(
        call.input,
        format!("mkdir -p ~/.crab && cat > ~/{file} && chmod 600 ~/{file}\n")
    );
    assert_eq!(creds::credentials_path("/h", "crab"), format!("/h/{file}"));
    assert_eq!(creds::credentials_missing("/x"), "host credentials not found (/x)");
}

#[test]
fn exec_quotes_every_word_and_keeps_the_directory() {
    let cmd: Vec<String> = vec!["echo".to_string(), "a b".to_string(), "c'd".to_string()];
    assert_eq!(
        exec("/h", "vm", Some("/w t"), &cmd, true),
        with_base(&["-tt", "lima-vm", "--", r"cd '/w t' && 'echo' 'a b' 'c'\''d'"])
    );
    assert_eq!(
        exec("/h", "vm", None, &cmd, false),
        with_base(&["lima-vm", "--", r"'echo' 'a b' 'c'\''d'"])
    );
}

#[test]
fn shells_and_captures_name_their_host() {
    assert_eq!(shell("/h", "vm"), with_base(&["-t", "lima-vm"]));
    assert_eq!(capture_args("/h", "vm", "uname"), with_base(&["lima-vm", "--", "uname"]));
    assert_eq!(capture_error("uname"), "remote command failed: uname");
}

#[test]
fn docker_is_ready_only_when_it_says_so() {
    assert!(docker_ready(Some("ready")));
    assert!(!docker_ready(Some("")));
    assert!(!docker_ready(None));
    assert_eq!(wait_docker_ready(true, u64::MAX, 0), Wait::Ready);
    assert_eq!(wait_docker_ready(false, 119_999, 120), Wait::Again);
    assert_eq!(wait_docker_ready(false, 120_000, 120), Wait::TimedOut);
    assert_eq!(wait_docker_ready(false, u64::MAX, u64::MAX), Wait::Again);
    assert_eq!(docker_timeout("vm", 120), "timed out after 120s waiting for docker in vm");
}

fn summary(steps: &[Step]) -> Vec<(Verb, String)> {
    steps.iter().map(|s| (s.verb, s.args.join(" "))).collect()
}

#[test]
fn forward_and_bridge_bind_opposite_ends() {
    let steps = forward("/h", "vm", "8080:3000", false).unwrap();
    assert_eq!(
        steps[0].args,
        with_base(&[
            "-f", "-N", "-M", "-S", "/h/.wtx/vm-8080.sock", "-L", "8080:localhost:3000", "lima-vm"
        ])
    );
    assert_eq!(steps[0].on_fail, OnFail::AbortWith);
    assert_eq!(steps[0].note, "ssh -L failed");
    assert_eq!(
        steps[1].args[0],
        "forward 8080:3000 active (stop: wtx unforward --name vm 8080)"
    );
    let steps = forward("/h", "vm", "5432:5433", true).unwrap();
    assert_eq!(
        steps[0].args,
        with_base(&[
            "-f", "-N", "-M", "-S", "/h/.wtx/vm-5433.sock", "-R", "5433:127.0.0.1:5432", "lima-vm"
        ])
    );
    assert_eq!(
        steps[1].args[0],
        "bridge 5432:5433 active (stop: wtx unforward --name vm 5433)"
    );
    assert!(matches!(forward("/h", "vm", "x", false), Err(PortFault::Form)));
}

#[test]
fn a_live_forward_is_left_alone() {
    assert!(ensure_forward("/h", "vm", 42000, 3000, true).is_empty());
    let steps = ensure_forward("/h", "vm", 42000, 3000, false);
    assert_eq!(
        summary(&steps[..2]),
        [
            (Verb::SshQuiet, "-S /h/.wtx/vm-42000.sock -O exit lima-vm".to_string()),
            (Verb::Remove, "/h/.wtx/vm-42000.sock".to_string()),
        ]
    );
    assert_eq!(steps.len(), 3);
    assert_eq!(steps[2].verb, Verb::Ssh);
    let steps = ensure_forward("/h", "vm", 42000, 0, false);
    assert_eq!(
        summary(&steps[2..]),
        [(Verb::Fail, "ports must be between 1 and 65535".to_string())]
    );
    assert_eq!(
        master_check_args("/h", "vm", 42000),
        ["-S", "/h/.wtx/vm-42000.sock", "-O", "check", "lima-vm"]
    );
}

#[test]
fn forwards_are_closed_one_by_one_or_all_of_a_vm() {
    let steps = unforward("/h", "vm", "8080").unwrap();
    assert_eq!(steps.len(), 3);
    assert_eq!(steps[2].args[0], "stopped");
    assert_eq!(summary(&drop_forward("/h", "vm", 8080)), summary(&steps[..2]));
    let files: Vec<String> = ["/h/.wtx/vm-1.sock", "/h/.wtx/vm-dev-2.sock", "/h/.wtx/vm.json"]
        .iter()
        .map(|s| s.to_string())
        .collect();
    assert_eq!(
        summary(&close_all_forwards("vm", &files)),
        [
            (Verb::SshQuiet, "-S /h/.wtx/vm-1.sock -O exit lima-vm".to_string()),
            (Verb::Remove, "/h/.wtx/vm-1.sock".to_string()),
        ]
    );
}

#[test]
fn a_step_says_what_follows_it() {
    let args = || vec!["x".to_string()];
    let step = plan::must(Verb::Git, args());
    assert!(matches!(plan::after(&step, Some("boom")), After::Stop(e) if e == "boom"));
    assert!(matches!(plan::after(&step, None), After::Continue(None, None)));
    let step = plan::attempt(Verb::Git, args());
    assert!(matches!(plan::after(&step, Some("boom")), After::Continue(None, None)));
    let step = plan::with_note(Verb::Git, args(), OnFail::AbortAs, "git");
    assert!(matches!(plan::after(&step, Some("boom")), After::Stop(e) if e == "git: boom"));
    let step = plan::with_note(Verb::Git, args(), OnFail::AbortWith, "git failed");
    assert!(matches!(plan::after(&step, Some("boom")), After::Stop(e) if e == "git failed"));
    let step = plan::with_note(Verb::Git, args(), OnFail::Warn, "wtx: warning");
    assert!(matches!(
        plan::after(&step, Some("boom")),
        After::Continue(None, Some(w)) if w == "wtx: warning: boom"
    ));
    let step = plan::with_note(Verb::Git, args(), OnFail::WarnWith, "by hand");
    assert!(matches!(
        plan::after(&step, Some("boom")),
        After::Continue(None, Some(w)) if w == "by hand"
    ));
    let step = plan::announce(plan::must(Verb::Git, args()), "done");
    assert!(matches!(plan::after(&step, None), After::Continue(Some(l), None) if l == "done"));
}
