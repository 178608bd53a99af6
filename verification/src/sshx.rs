//! SSH connections into a VM: scripts, commands and port forwards.
use vstd::prelude::*;

use crate::path;
use crate::plan::{self, Step, StepView, Verb};
use crate::text;
use crate::util;

verus! {

// ---------------------------------------------------------------------------
// Command lines
// ---------------------------------------------------------------------------

/// The SSH host of a VM.
pub open spec fn host_of(name: Seq<char>) -> Seq<char> {
    "lima-"@ + name
}

/// Connection arguments that bypass Lima's control master. Group membership changed during
/// provisioning does not reach sessions of an existing master.
pub open spec fn base(home: Seq<char>, name: Seq<char>) -> Seq<Seq<char>> {
    seq![
        "-F"@,
        path::below(util::lima_dir_of(home, name), "ssh.config"@),
        "-o"@,
        "ControlMaster=no"@,
        "-o"@,
        "ControlPath=none"@,
    ]
}

fn host(name: &str) -> (r: String)
    ensures
        r@ == host_of(name@),
{
    "lima-".to_owned().concat(name)
}

/// Connections go by the VM's own configuration and past a control master of Lima's.
pub proof fn lemma_connection(home: Seq<char>, name: Seq<char>)
    requires
        path::tidy(home),
        path::entry_name(name),
    ensures
        base(home, name) == seq![
            "-F"@,
            home + "/"@ + ".lima"@ + "/"@ + name + "/"@ + "ssh.config"@,
            "-o"@,
            "ControlMaster=no"@,
            "-o"@,
            "ControlPath=none"@,
        ],
        host_of(name) == "lima-"@ + name,
{
    util::lemma_directories(home, name);
    reveal_strlit(".lima");
    reveal_strlit("ssh.config");
    reveal_strlit(".");
    reveal_strlit("..");
    assert("."@.len() == 1 && ".."@.len() == 2);
    assert(".lima"@.len() == 5 && !".lima"@.contains('/'));
    assert("ssh.config"@.len() == 10 && !"ssh.config"@.contains('/'));
    path::lemma_entry_of_directory(home, ".lima"@);
    path::lemma_entry_of_directory(home + "/"@ + ".lima"@, name);
    path::lemma_entry_of_directory(home + "/"@ + ".lima"@ + "/"@ + name, "ssh.config"@);
}

pub fn ssh_base(home: &str, name: &str) -> (r: Vec<String>)
    ensures
        text::texts(r@) == base(home@, name@),
{
    let config: String = path::join(util::lima_dir(home, name).as_str(), "ssh.config");
    let r: Vec<String> = vec![
        "-F".to_owned(),
        config,
        "-o".to_owned(),
        "ControlMaster=no".to_owned(),
        "-o".to_owned(),
        "ControlPath=none".to_owned(),
    ];
    assert(text::texts(r@) =~= base(home@, name@));
    r
}

/// A script for Bash in a VM: the arguments of `ssh`, and what goes to its standard input.
pub struct ScriptCall {
    pub args: Vec<String>,
    pub input: String,
}

/// A script that ends its last line.
pub open spec fn whole_lines(script: Seq<char>) -> Seq<char> {
    if text::has_suffix(script, "\n"@) {
        script
    } else {
        script + "\n"@
    }
}

/// Send a script to Bash in a VM through standard input, which needs no shell quoting. `bash -s`
/// reads complete lines, so the script's last line is ended before any further data follows it.
pub fn vm_script(home: &str, name: &str, script: &str) -> (r: ScriptCall)
    ensures
        text::texts(r.args@) == base(home@, name@) + seq![
            host_of(name@),
            "--"@,
            "bash"@,
            "-s"@,
        ],
        r.input@ == whole_lines(script@),
{
    let mut args: Vec<String> = ssh_base(home, name);
    text::push_string(&mut args, host(name));
    text::push_text(&mut args, "--");
    text::push_text(&mut args, "bash");
    text::push_text(&mut args, "-s");
    assert(text::texts(args@) =~= base(home@, name@) + seq![
        host_of(name@),
        "--"@,
        "bash"@,
        "-s"@,
    ]);
    let input: String = if text::ends_with(script, "\n") {
        script.to_owned()
    } else {
        script.to_owned().concat("\n")
    };
    ScriptCall { args, input }
}

/// Data behind a script starts on a line of its own.
pub proof fn lemma_script_ends_its_line(script: Seq<char>)
    ensures
        whole_lines(script).len() > 0,
        whole_lines(script).last() == '\n',
        text::has_prefix(whole_lines(script), script),
{
    reveal_strlit("\n");
    if text::has_suffix(script, "\n"@) {
        assert(script.skip(script.len() - 1)[0] == script.last());
        assert(script.take(script.len() as int) =~= script);
    } else {
        assert(whole_lines(script).take(script.len() as int) =~= script);
    }
}

/// The error of a failed script; `code` is its exit status where it has one.
pub fn script_error(code: Option<u64>) -> (r: String)
    ensures
        r@ == match code {
            Some(n) => "remote script failed (exit Some("@ + text::dec(n as nat) + "))"@,
            None => "remote script failed (exit None)"@,
        },
{
    match code {
        Some(n) => {
            let d: String = text::dec_of(n);
            "remote script failed (exit Some(".to_owned().concat(d.as_str()).concat("))")
        },
        None => "remote script failed (exit None)".to_owned(),
    }
}

/// The arguments of `ssh` for a command whose output is read.
pub fn capture_args(home: &str, name: &str, remote: &str) -> (r: Vec<String>)
    ensures
        text::texts(r@) == base(home@, name@) + seq![host_of(name@), "--"@, remote@],
{
    let mut args: Vec<String> = ssh_base(home, name);
    text::push_string(&mut args, host(name));
    text::push_text(&mut args, "--");
    text::push_text(&mut args, remote);
    assert(text::texts(args@) =~= base(home@, name@) + seq![host_of(name@), "--"@, remote@]);
    args
}

pub fn capture_error(remote: &str) -> (r: String)
    ensures
        r@ == "remote command failed: "@ + remote@,
{
    "remote command failed: ".to_owned().concat(remote)
}

/// The command line that runs in the VM: the words of the command, in a directory if one is given.
pub open spec fn remote_command(workdir: Option<Seq<char>>, cmd: Seq<Seq<char>>) -> Seq<char> {
    match workdir {
        Some(d) => "cd "@ + util::quoted(d) + " && "@ + util::command_line(cmd),
        None => util::command_line(cmd),
    }
}

/// The arguments of `ssh` that run a command in a VM. With `tty`, `-tt` forces a terminal even
/// when wtx itself runs under another one.
pub fn exec(home: &str, name: &str, workdir: Option<&str>, cmd: &Vec<String>, tty: bool) -> (r: Vec<
    String,
>)
    ensures
        text::texts(r@) == base(home@, name@) + (if tty {
            seq!["-tt"@]
        } else {
            Seq::empty()
        }) + seq![
            host_of(name@),
            "--"@,
            remote_command(util::opt_view(workdir), text::texts(cmd@)),
        ],
        r@.len() > 2 && r@[r@.len() - 3]@ == "lima-"@ + name@,
        util::shell_words(r@.last()@) == Some(
            match util::opt_view(workdir) {
                Some(d) => seq!["cd"@, d, "&&"@] + text::texts(cmd@),
                None => text::texts(cmd@),
            },
        ),
        tty ==> r@[6]@ == "-tt"@,
{
    let words: String = util::quote_words(cmd);
    let remote: String = match workdir {
        Some(d) => {
            let dir: String = util::shq(d);
            "cd ".to_owned().concat(dir.as_str()).concat(" && ").concat(words.as_str())
        },
        None => words,
    };
    let mut args: Vec<String> = ssh_base(home, name);
    if tty {
        text::push_text(&mut args, "-tt");
    }
    text::push_string(&mut args, host(name));
    text::push_text(&mut args, "--");
    let ghost rv = remote@;
    text::push_string(&mut args, remote);
    assert(text::texts(args@) =~= base(home@, name@) + (if tty {
        seq!["-tt"@]
    } else {
        Seq::empty()
    }) + seq![host_of(name@), "--"@, rv]);
    proof {
        lemma_exec_keeps_words(util::opt_view(workdir), text::texts(cmd@));
        let t = text::texts(args@);
        let n = args@.len() as int;
        assert(t[n - 1] == args@[n - 1]@ && t[n - 3] == args@[n - 3]@ && t[6] == args@[6]@);
    }
    args
}

/// The words that arrive in the VM are the words of the command, unchanged, whatever characters
/// they hold; with a directory, they follow a `cd` into exactly that directory.
pub proof fn lemma_exec_keeps_words(workdir: Option<Seq<char>>, cmd: Seq<Seq<char>>)
    ensures
        util::shell_words(remote_command(workdir, cmd)) == Some(
            match workdir {
                Some(d) => seq!["cd"@, d, "&&"@] + cmd,
                None => cmd,
            },
        ),
{
    util::lemma_shell_reads_command_line(cmd);
    match workdir {
        None => {},
        Some(d) => {
            reveal_strlit("cd ");
            reveal_strlit("cd");
            reveal_strlit(" && ");
            reveal_strlit("&&");
            let words = util::command_line(cmd);
            let tail = " && "@ + words;
            let all = remote_command(workdir, cmd);
            assert(all =~= "cd "@ + (util::quoted(d) + tail));
            let s1 = all.skip(1);
            let s2 = s1.skip(1);
            let s3 = s2.skip(1);
            assert(s3 =~= util::quoted(d) + tail);
            util::lemma_quoted_then(d, tail);
            let t1 = tail.skip(1);
            let t2 = t1.skip(1);
            let t3 = t2.skip(1);
            let t4 = t3.skip(1);
            assert(t4 =~= words);
            assert(t1[0] == '&' && t2[0] == '&' && t3[0] == ' ');
            let amp = Seq::<char>::empty().push('&');
            assert(amp.push('&') =~= "&&"@);
            assert(util::shell_words_from(t3, false, Some("&&"@)) == Some(seq!["&&"@] + cmd));
            assert(util::shell_words_from(t2, false, Some(amp)) == Some(seq!["&&"@] + cmd));
            assert(util::shell_words_from(t1, false, None) == Some(seq!["&&"@] + cmd));
            assert(util::shell_words_from(tail, false, Some(d)) == Some(
                seq![d] + (seq!["&&"@] + cmd),
            ));
            let c = Seq::<char>::empty().push('c');
            assert(c.push('d') =~= "cd"@);
            assert(util::shell_words_from(s2, false, Some("cd"@)) == Some(
                seq!["cd"@] + (seq![d] + (seq!["&&"@] + cmd)),
            ));
            assert(util::shell_words_from(s1, false, Some(c)) == util::shell_words_from(
                s2,
                false,
                Some("cd"@),
            ));
            assert(seq!["cd"@] + (seq![d] + (seq!["&&"@] + cmd)) =~= seq!["cd"@, d, "&&"@] + cmd);
        },
    }
}

/// The arguments of `ssh` for an interactive shell.
pub fn shell(home: &str, name: &str) -> (r: Vec<String>)
    ensures
        text::texts(r@) == base(home@, name@) + seq!["-t"@, host_of(name@)],
{
    let mut args: Vec<String> = ssh_base(home, name);
    text::push_text(&mut args, "-t");
    text::push_string(&mut args, host(name));
    assert(text::texts(args@) =~= base(home@, name@) + seq!["-t"@, host_of(name@)]);
    args
}

// ---------------------------------------------------------------------------
// Docker readiness
// ---------------------------------------------------------------------------

/// The command that tells whether dockerd accepts commands, without side effects.
pub const DOCKER_READY: &'static str = "docker info >/dev/null 2>&1 && printf '%s' ready";

/// Whether dockerd is ready, from what the readiness command printed; `None` if it failed.
pub fn docker_ready(out: Option<&str>) -> (r: bool)
    ensures
        r == (util::opt_view(out) == Some("ready"@)),
{
    match out {
        Some(s) => text::same(s, "ready"),
        None => false,
    }
}

/// What to do next while waiting for dockerd.
#[derive(Clone, Copy, PartialEq, Eq, Structural, Debug)]
pub enum Wait {
    Ready,
    TimedOut,
    /// Sleep for half a second and look again.
    Again,
}

/// One turn of waiting for dockerd in a newly started VM.
pub fn wait_docker_ready(ready: bool, elapsed_ms: u64, timeout_seconds: u64) -> (r: Wait)
    ensures
        r == (if ready {
            Wait::Ready
        } else if elapsed_ms >= timeout_seconds * 1000 {
            Wait::TimedOut
        } else {
            Wait::Again
        }),
{
    if ready {
        Wait::Ready
    } else if elapsed_ms as u128 >= timeout_seconds as u128 * 1000 {
        Wait::TimedOut
    } else {
        Wait::Again
    }
}

pub fn docker_timeout(name: &str, timeout_seconds: u64) -> (r: String)
    ensures
        r@ == "timed out after "@ + text::dec(timeout_seconds as nat) + "s waiting for docker in "@
            + name@,
{
    let d: String = text::dec_of(timeout_seconds);
    "timed out after ".to_owned().concat(d.as_str()).concat("s waiting for docker in ").concat(name)
}

// ---------------------------------------------------------------------------
// Port forwards
// ---------------------------------------------------------------------------

#[derive(Clone, Copy, PartialEq, Eq, Structural, Debug)]
pub struct PortSpec {
    pub host: u16,
    pub guest: u16,
}

/// What is wrong with a port on the command line.
#[derive(Clone, Copy, PartialEq, Eq, Structural, Debug)]
pub enum PortFault {
    /// There is no colon.
    Form,
    /// The host port is no number.
    Host,
    /// The guest port is no number.
    Guest,
    /// A port is zero.
    Range,
    /// The bound port is no number.
    Bound,
    /// The bound port is zero.
    BoundRange,
}

/// The meaning of `HOST:GUEST`.
pub open spec fn port_spec(s: Seq<char>) -> Result<PortSpec, PortFault> {
    match text::split_at_first(s, ':') {
        None => Err(PortFault::Form),
        Some((h, g)) => match text::parsed_u16(h) {
            None => Err(PortFault::Host),
            Some(host) => match text::parsed_u16(g) {
                None => Err(PortFault::Guest),
                Some(guest) => if host == 0 || guest == 0 {
                    Err(PortFault::Range)
                } else {
                    Ok(PortSpec { host, guest })
                },
            },
        },
    }
}

pub open spec fn port_fault_text(f: PortFault, s: Seq<char>) -> Seq<char> {
    match f {
        PortFault::Form => "port spec must be HOST:GUEST"@,
        PortFault::Host => "invalid host port in "@ + s,
        PortFault::Guest => "invalid guest port in "@ + s,
        PortFault::Range => "ports must be between 1 and 65535"@,
        PortFault::Bound => "invalid bound port: "@ + s,
        PortFault::BoundRange => "port must be between 1 and 65535"@,
    }
}

impl PortFault {
    /// The error message for the given argument.
    pub fn message(&self, s: &str) -> (r: String)
        ensures
            r@ == port_fault_text(*self, s@),
    {
        match self {
            PortFault::Form => "port spec must be HOST:GUEST".to_owned(),
            PortFault::Host => "invalid host port in ".to_owned().concat(s),
            PortFault::Guest => "invalid guest port in ".to_owned().concat(s),
            PortFault::Range => "ports must be between 1 and 65535".to_owned(),
            PortFault::Bound => "invalid bound port: ".to_owned().concat(s),
            PortFault::BoundRange => "port must be between 1 and 65535".to_owned(),
        }
    }
}

pub fn parse_port_spec(s: &str) -> (r: Result<PortSpec, PortFault>)
    ensures
        r == port_spec(s@),
{
    match text::split_once(s, ':') {
        None => Err(PortFault::Form),
        Some((h, g)) => match text::parse_u16(h) {
            None => Err(PortFault::Host),
            Some(host) => match text::parse_u16(g) {
                None => Err(PortFault::Guest),
                Some(guest) => if host == 0 || guest == 0 {
                    Err(PortFault::Range)
                } else {
                    Ok(PortSpec { host, guest })
                },
            },
        },
    }
}

/// `HOST:GUEST` for two ports.
pub open spec fn pair_text(host: u16, guest: u16) -> Seq<char> {
    text::dec(host as nat) + ":"@ + text::dec(guest as nat)
}

/// Ports written as `HOST:GUEST` read back as the same ports, in the same order.
pub proof fn lemma_port_spec_reads_back(host: u16, guest: u16)
    requires
        host > 0,
        guest > 0,
    ensures
        port_spec(pair_text(host, guest)) == Ok::<PortSpec, PortFault>(PortSpec { host, guest }),
{
    reveal_strlit(":");
    let h = text::dec(host as nat);
    let g = text::dec(guest as nat);
    text::lemma_dec(host as nat);
    text::lemma_parse_dec(host as nat, 65535);
    text::lemma_parse_dec(guest as nat, 65535);
    assert(!h.contains(':')) by {
        if h.contains(':') {
            let i = choose|i: int| 0 <= i < h.len() && h[i] == ':';
            assert(text::is_digit(h[i]));
        }
    }
    text::lemma_split_at_first(h, ':', g);
    assert(h.push(':') + g =~= pair_text(host, guest));
}

/// The file name of a forward's control socket.
pub open spec fn socket_name(name: Seq<char>, port: u16) -> Seq<char> {
    name + "-"@ + text::dec(port as nat) + ".sock"@
}

pub open spec fn socket_path(home: Seq<char>, name: Seq<char>, port: u16) -> Seq<char> {
    path::below(util::home_of(home), socket_name(name, port))
}

pub fn forward_socket_path(home: &str, name: &str, port: u16) -> (r: String)
    ensures
        r@ == socket_path(home@, name@, port),
{
    let d: String = text::dec_of(port as u64);
    let file: String = name.to_owned().concat("-").concat(d.as_str()).concat(".sock");
    path::join(util::wtx_home(home).as_str(), file.as_str())
}

/// The port of a VM's control socket, from the socket's file name.
pub open spec fn socket_port(name: Seq<char>, file: Seq<char>) -> Option<u16> {
    match text::without_prefix(file, name + "-"@) {
        Some(rest) => match text::without_suffix(rest, ".sock"@) {
            Some(digits) => text::parsed_u16(digits),
            None => None,
        },
        None => None,
    }
}

/// Match only `<name>-<port>.sock`, so that a VM whose name begins with another VM's name is not
/// taken for it.
pub fn forward_socket_port(name: &str, socket: &str) -> (r: Option<u16>)
    ensures
        r == match path::name_of(socket@) {
            Some(file) => socket_port(name@, file),
            None => None,
        },
{
    match path::file_name(socket) {
        Some(file) => {
            let prefix: String = name.to_owned().concat("-");
            match text::strip_prefix(file.as_str(), prefix.as_str()) {
                Some(rest) => match text::strip_suffix(rest, ".sock") {
                    Some(digits) => text::parse_u16(digits),
                    None => None,
                },
                None => None,
            }
        },
        None => None,
    }
}

/// Whether a file is a control socket of a VM.
pub open spec fn is_socket_of(name: Seq<char>, file: Seq<char>) -> bool {
    path::name_of(file) matches Some(f) && exists|p: u16| f == #[trigger] socket_name(name, p)
}

/// Whether a step ends the connection behind a control socket of a VM.
pub open spec fn ends_connection(s: StepView, name: Seq<char>, file: Seq<char>) -> bool {
    &&& s.verb == Verb::SshQuiet
    &&& s.args.len() == 5
    &&& s.args[0] == "-S"@ && s.args[1] == file
    &&& s.args[2] == "-O"@ && s.args[3] == "exit"@
    &&& s.args[4] == "lima-"@ + name
}

/// Whether a step takes a file away.
pub open spec fn takes_away(s: StepView, file: Seq<char>) -> bool {
    s.verb == Verb::Remove && s.args.len() == 1 && s.args[0] == file
}

/// Every forward of a VM is closed: for each of its control sockets among the files there is a step
/// that ends the connection behind it, followed by one that takes that file away.
pub proof fn lemma_every_forward_is_closed(name: Seq<char>, files: Seq<Seq<char>>, k: int)
    requires
        0 <= k < files.len(),
        is_socket_of(name, files[k]),
    ensures
        exists|j: int|
            0 <= j && j + 1 < closing_all(name, files).len() && ends_connection(
                #[trigger] closing_all(name, files)[j],
                name,
                files[k],
            ) && takes_away(closing_all(name, files)[j + 1], files[k]),
    decreases files.len(),
{
    let all = closing_all(name, files);
    let f = files.drop_last();
    let before = closing_all(name, f);
    if k < f.len() {
        assert(f[k] == files[k]);
        lemma_every_forward_is_closed(name, f, k);
        let j = choose|j: int|
            0 <= j && j + 1 < before.len() && ends_connection(
                #[trigger] before[j],
                name,
                files[k],
            ) && takes_away(before[j + 1], files[k]);
        assert(all[j] == before[j]);
        assert(all[j + 1] == before[j + 1]);
    } else {
        let p = choose|p: u16| path::name_of(files[k])->0 == #[trigger] socket_name(name, p);
        lemma_socket_belongs_to_one_vm(name, name, p);
        let j = before.len() as int;
        assert(all == before + closing(name, files[k]));
        assert(all[j] == closing(name, files[k])[0]);
        assert(all[j + 1] == closing(name, files[k])[1]);
    }
}

/// Nothing else is closed: each step is about a file of the list that reads as a socket of the VM,
/// and so no forward of another VM is touched.
pub proof fn lemma_only_own_forwards_are_closed(name: Seq<char>, files: Seq<Seq<char>>, j: int)
    requires
        0 <= j < closing_all(name, files).len(),
    ensures
        exists|k: int|
            0 <= k < files.len() && (path::name_of(#[trigger] files[k]) matches Some(f)
                && socket_port(name, f) is Some) && closing_all(name, files)[j].args.contains(
                files[k],
            ),
    decreases files.len(),
{
    let all = closing_all(name, files);
    let f = files.drop_last();
    let before = closing_all(name, f);
    if j < before.len() {
        lemma_only_own_forwards_are_closed(name, f, j);
        let k = choose|k: int|
            0 <= k < f.len() && (path::name_of(#[trigger] f[k]) matches Some(x) && socket_port(
                name,
                x,
            ) is Some) && before[j].args.contains(f[k]);
        assert(all[j] == before[j]);
        assert(files[k] == f[k]);
    } else {
        let k = files.len() - 1;
        assert(all[j] == closing(name, files[k])[j - before.len()]);
        if j == before.len() {
            assert(all[j].args[1] == files[k]);
        } else {
            assert(all[j].args[0] == files[k]);
        }
        assert(all[j].args.contains(files[k]));
    }
}

/// A control socket belongs to exactly one VM: its own name and no other reads a port from it.
pub proof fn lemma_socket_belongs_to_one_vm(name: Seq<char>, other: Seq<char>, port: u16)
    ensures
        socket_port(name, socket_name(name, port)) == Some(port),
        other != name ==> socket_port(other, socket_name(name, port)) is None,
{
    reveal_strlit("-");
    reveal_strlit(".sock");
    let d = text::dec(port as nat);
    let file = socket_name(name, port);
    text::lemma_dec(port as nat);
    text::lemma_parse_dec(port as nat, 65535);
    assert(file.take(name.len() as int + 1) =~= name + "-"@);
    assert(file.skip(name.len() as int + 1) =~= d + ".sock"@);
    let rest = d + ".sock"@;
    assert(rest.skip(rest.len() - 5) =~= ".sock"@);
    assert(rest.take(rest.len() - 5) =~= d);
    if other != name && text::has_prefix(file, other + "-"@) {
        let k = other.len() as int;
        assert(file.take(k + 1)[k] == '-');
        assert(file[k] == '-');
        if k > name.len() {
            let j = k - name.len() - 1;
            assert(file[k] == rest[j]);
            if j < d.len() {
                assert(text::is_digit(d[j]));
            }
        } else if k == name.len() {
            assert(other =~= file.take(k + 1).take(k));
            assert(name =~= file.take(k + 1).take(k));
        } else {
            let tail = file.skip(k + 1);
            assert(tail[name.len() - k - 1] == '-');
            if text::has_suffix(tail, ".sock"@) {
                let digits = tail.take(tail.len() - 5);
                let x = name.len() - k - 1;
                assert(digits[x] == '-');
                let u = text::unsigned_digits(digits);
                if digits[0] == '+' {
                    assert(u[x - 1] == '-');
                } else {
                    assert(u[x] == '-');
                }
                assert(!text::all_digits(u)) by {
                    if text::all_digits(u) {
                        if digits[0] == '+' {
                            assert(text::is_digit(u[x - 1]));
                        } else {
                            assert(text::is_digit(u[x]));
                        }
                    }
                }
            }
        }
    }
}

/// The steps that close a control socket and take its file away.
pub open spec fn closing(name: Seq<char>, socket: Seq<char>) -> Seq<StepView> {
    seq![
        plan::tries(Verb::SshQuiet, seq!["-S"@, socket, "-O"@, "exit"@, host_of(name)]),
        plan::tries(Verb::Remove, seq![socket]),
    ]
}

fn close_control_socket(name: &str, socket: &str) -> (r: Vec<Step>)
    ensures
        plan::steps(r@) == closing(name@, socket@),
{
    let h: String = host(name);
    let mut p: Vec<Step> = plan::nothing();
    plan::push(
        &mut p,
        plan::attempt(Verb::SshQuiet, plan::args5("-S", socket, "-O", "exit", h.as_str())),
    );
    plan::push(&mut p, plan::attempt(Verb::Remove, plan::args1(socket)));
    assert(plan::steps(p@) =~= closing(name@, socket@));
    p
}

/// The port that a forward binds: on the host, or in the guest for a bridge.
pub open spec fn bound_port(p: PortSpec, reverse: bool) -> u16 {
    if reverse {
        p.guest
    } else {
        p.host
    }
}

/// The option of `ssh` that makes a forward, and its value.
pub open spec fn forward_option(p: PortSpec, reverse: bool) -> (Seq<char>, Seq<char>) {
    if reverse {
        ("-R"@, text::dec(p.guest as nat) + ":127.0.0.1:"@ + text::dec(p.host as nat))
    } else {
        ("-L"@, text::dec(p.host as nat) + ":localhost:"@ + text::dec(p.guest as nat))
    }
}

/// The steps that arm a forward or a bridge.
pub open spec fn arming(
    home: Seq<char>,
    name: Seq<char>,
    p: PortSpec,
    reverse: bool,
    quiet: bool,
) -> Seq<StepView> {
    let (flag, value) = forward_option(p, reverse);
    let start = plan::noted(
        Verb::Ssh,
        base(home, name) + seq![
            "-f"@,
            "-N"@,
            "-M"@,
            "-S"@,
            socket_path(home, name, bound_port(p, reverse)),
            flag,
            value,
            host_of(name),
        ],
        plan::OnFail::AbortWith,
        "ssh "@ + flag + " failed"@,
    );
    if quiet {
        seq![start]
    } else {
        seq![
            start,
            plan::says(
                (if reverse {
                    "bridge"@
                } else {
                    "forward"@
                }) + " "@ + pair_text(p.host, p.guest) + " active (stop: wtx unforward --name "@
                    + name + " "@ + text::dec(bound_port(p, reverse) as nat) + ")"@,
            ),
        ]
    }
}

fn arm(home: &str, name: &str, p: PortSpec, reverse: bool, quiet: bool) -> (r: Vec<Step>)
    ensures
        plan::steps(r@) == arming(home@, name@, p, reverse, quiet),
{
    let bound: u16 = if reverse { p.guest } else { p.host };
    let sock: String = forward_socket_path(home, name, bound);
    let h: String = text::dec_of(p.host as u64);
    let g: String = text::dec_of(p.guest as u64);
    let flag: &str = if reverse { "-R" } else { "-L" };
    let value: String = if reverse {
        g.clone().concat(":127.0.0.1:").concat(h.as_str())
    } else {
        h.clone().concat(":localhost:").concat(g.as_str())
    };
    let mut args: Vec<String> = ssh_base(home, name);
    text::push_text(&mut args, "-f");
    text::push_text(&mut args, "-N");
    text::push_text(&mut args, "-M");
    text::push_text(&mut args, "-S");
    text::push_string(&mut args, sock);
    text::push_text(&mut args, flag);
    text::push_string(&mut args, value);
    text::push_string(&mut args, host(name));
    let ghost (fl, va) = forward_option(p, reverse);
    assert(text::texts(args@) =~= base(home@, name@) + seq![
        "-f"@,
        "-N"@,
        "-M"@,
        "-S"@,
        socket_path(home@, name@, bound_port(p, reverse)),
        fl,
        va,
        host_of(name@),
    ]);
    let note: String = "ssh ".to_owned().concat(flag).concat(" failed");
    let mut steps: Vec<Step> = plan::nothing();
    plan::push(
        &mut steps,
        plan::with_note(Verb::Ssh, args, plan::OnFail::AbortWith, note.as_str()),
    );
    if !quiet {
        let kind: &str = if reverse { "bridge" } else { "forward" };
        let b: String = text::dec_of(bound as u64);
        let pair: String = h.concat(":").concat(g.as_str());
        let line: String = kind.to_owned().concat(" ").concat(pair.as_str()).concat(
            " active (stop: wtx unforward --name ",
        ).concat(name).concat(" ").concat(b.as_str()).concat(")");
        plan::push(&mut steps, plan::say(line.as_str()));
    }
    assert(plan::steps(steps@) =~= arming(home@, name@, p, reverse, quiet));
    steps
}

/// A forward leads from the host port into the VM to the guest port, and a bridge from the guest port
/// back to the host port; its control socket is named after the VM and the port that it binds.
pub proof fn lemma_forward_leads_from_host_to_guest(
    home: Seq<char>,
    name: Seq<char>,
    p: PortSpec,
    quiet: bool,
)
    ensures
        ({
            let s = arming(home, name, p, false, quiet);
            let a = s[0].args;
            &&& s[0].verb == Verb::Ssh && s[0].on_fail == plan::OnFail::AbortWith
            &&& a.len() == 14
            &&& a.take(6) == base(home, name)
            &&& a[6] == "-f"@ && a[7] == "-N"@ && a[8] == "-M"@ && a[9] == "-S"@
            &&& a[10] == path::below(
                path::below(home, ".wtx"@),
                name + "-"@ + text::dec(p.host as nat) + ".sock"@,
            )
            &&& a[11] == "-L"@
            &&& a[12] == text::dec(p.host as nat) + ":localhost:"@ + text::dec(p.guest as nat)
            &&& a[13] == "lima-"@ + name
            &&& quiet ==> s.len() == 1
            &&& !quiet ==> s.len() == 2 && s[1].verb == Verb::Say
        }),
        ({
            let s = arming(home, name, p, true, quiet);
            let a = s[0].args;
            &&& a.len() == 14
            &&& a.take(6) == base(home, name)
            &&& a[10] == path::below(
                path::below(home, ".wtx"@),
                name + "-"@ + text::dec(p.guest as nat) + ".sock"@,
            )
            &&& a[11] == "-R"@
            &&& a[12] == text::dec(p.guest as nat) + ":127.0.0.1:"@ + text::dec(p.host as nat)
            &&& a[13] == "lima-"@ + name
        }),
{
    assert(arming(home, name, p, false, quiet)[0].args.take(6) =~= base(home, name));
    assert(arming(home, name, p, true, quiet)[0].args.take(6) =~= base(home, name));
}

/// A forward that is alive is left alone; a dead one is taken away and armed again between the same
/// ports, or refused where a port is 0.
pub proof fn lemma_dead_forward_is_armed_again(
    home: Seq<char>,
    name: Seq<char>,
    host: u16,
    guest: u16,
)
    ensures
        ensuring(home, name, host, guest, true).len() == 0,
        host > 0 && guest > 0 ==> {
            let s = ensuring(home, name, host, guest, false);
            &&& s.len() == 3
            &&& ends_connection(s[0], name, socket_path(home, name, host))
            &&& takes_away(s[1], socket_path(home, name, host))
            &&& s[2] == arming(home, name, PortSpec { host, guest }, false, true)[0]
        },
        host == 0 || guest == 0 ==> ensuring(home, name, host, guest, false).last().verb
            == Verb::Fail,
{
}

/// The port of `unforward` is read as it is written, and 0 is refused.
pub proof fn lemma_bound_arg(p: u16)
    ensures
        p > 0 ==> bound_arg(text::dec(p as nat)) == Ok::<u16, PortFault>(p),
        p == 0 ==> bound_arg(text::dec(p as nat)) == Err::<u16, PortFault>(PortFault::BoundRange),
{
    text::lemma_parse_dec(p as nat, 65535);
}

/// Forward a host port into a VM (`ssh -L`), or bridge a guest port to the host (`ssh -R`). The
/// ports are always written `HOST:GUEST`.
pub fn forward(home: &str, name: &str, ports: &str, reverse: bool) -> (r: Result<
    Vec<Step>,
    PortFault,
>)
    ensures
        match port_spec(ports@) {
            Ok(p) => r matches Ok(v) && plan::steps(v@) == arming(home@, name@, p, reverse, false),
            Err(f) => r matches Err(e) && e == f,
        },
{
    match parse_port_spec(ports) {
        Ok(p) => Ok(arm(home, name, p, reverse, false)),
        Err(f) => Err(f),
    }
}

/// The arguments of `ssh` that tell whether a forward's master is alive.
pub fn master_check_args(home: &str, name: &str, port: u16) -> (r: Vec<String>)
    ensures
        text::texts(r@) == seq![
            "-S"@,
            socket_path(home@, name@, port),
            "-O"@,
            "check"@,
            host_of(name@),
        ],
{
    let sock: String = forward_socket_path(home, name, port);
    let h: String = host(name);
    plan::args5("-S", sock.as_str(), "-O", "check", h.as_str())
}

/// Stop a forward without output.
pub fn drop_forward(home: &str, name: &str, port: u16) -> (r: Vec<Step>)
    ensures
        plan::steps(r@) == closing(name@, socket_path(home@, name@, port)),
{
    let sock: String = forward_socket_path(home, name, port);
    close_control_socket(name, sock.as_str())
}

/// The steps after which a forward is up: none if its master is alive; otherwise what is left of
/// it is taken away and it is armed again, without a line on standard output.
pub open spec fn ensuring(
    home: Seq<char>,
    name: Seq<char>,
    host: u16,
    guest: u16,
    alive: bool,
) -> Seq<StepView> {
    if alive {
        Seq::empty()
    } else {
        closing(name, socket_path(home, name, host)) + (if host == 0 || guest == 0 {
            seq![plan::fails(port_fault_text(PortFault::Range, pair_text(host, guest)))]
        } else {
            arming(home, name, PortSpec { host, guest }, false, true)
        })
    }
}

/// Arm a forward again if it is dead; `alive` says whether its master answers.
pub fn ensure_forward(home: &str, name: &str, host: u16, guest: u16, alive: bool) -> (r: Vec<Step>)
    ensures
        plan::steps(r@) == ensuring(home@, name@, host, guest, alive),
{
    if alive {
        return plan::nothing();
    }
    let mut p: Vec<Step> = drop_forward(home, name, host);
    if host == 0 || guest == 0 {
        let m: String = PortFault::Range.message("");
        plan::append(&mut p, plan::one(plan::fail(m.as_str())));
    } else {
        plan::append(&mut p, arm(home, name, PortSpec { host, guest }, false, true));
    }
    p
}

/// The meaning of the argument of `unforward`.
pub open spec fn bound_arg(s: Seq<char>) -> Result<u16, PortFault> {
    match text::parsed_u16(s) {
        None => Err(PortFault::Bound),
        Some(p) => if p == 0 {
            Err(PortFault::BoundRange)
        } else {
            Ok(p)
        },
    }
}

/// Stop the forward that binds the given port.
pub fn unforward(home: &str, name: &str, port: &str) -> (r: Result<Vec<Step>, PortFault>)
    ensures
        match bound_arg(port@) {
            Ok(p) => r matches Ok(v) && plan::steps(v@) == closing(
                name@,
                socket_path(home@, name@, p),
            ).push(plan::says("stopped"@)),
            Err(f) => r matches Err(e) && e == f,
        },
{
    match text::parse_u16(port) {
        None => Err(PortFault::Bound),
        Some(p) => {
            if p == 0 {
                return Err(PortFault::BoundRange);
            }
            let mut steps: Vec<Step> = drop_forward(home, name, p);
            plan::push(&mut steps, plan::say("stopped"));
            Ok(steps)
        },
    }
}

/// The steps that close every control socket of a VM among the given paths.
pub open spec fn closing_all(name: Seq<char>, sockets: Seq<Seq<char>>) -> Seq<StepView>
    decreases sockets.len(),
{
    if sockets.len() == 0 {
        Seq::empty()
    } else {
        let before = closing_all(name, sockets.drop_last());
        match path::name_of(sockets.last()) {
            Some(file) => if socket_port(name, file) is Some {
                before + closing(name, sockets.last())
            } else {
                before
            },
            None => before,
        }
    }
}

/// Close the forwards of a VM, given the paths of the files in wtx's directory.
pub fn close_all_forwards(name: &str, files: &Vec<String>) -> (r: Vec<Step>)
    ensures
        plan::steps(r@) == closing_all(name@, text::texts(files@)),
{
    let mut p: Vec<Step> = plan::nothing();
    let mut i: usize = 0;
    let ghost t = text::texts(files@);
    assert(t.take(0) =~= Seq::empty());
    while i < files.len()
        invariant
            i <= files@.len(),
            t == text::texts(files@),
            plan::steps(p@) == closing_all(name@, t.take(i as int)),
        decreases files@.len() - i,
    {
        assert(t.take(i + 1).drop_last() =~= t.take(i as int));
        assert(t.take(i + 1).last() == t[i as int]);
        match forward_socket_port(name, files[i].as_str()) {
            Some(_) => {
                plan::append(&mut p, close_control_socket(name, files[i].as_str()));
            },
            None => {},
        }
        i += 1;
    }
    assert(t.take(i as int) =~= t);
    p
}

} // verus!
