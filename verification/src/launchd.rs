//! Starting the mirror on demand through launchd.
use vstd::prelude::*;

use crate::mirror::{self, EntryView, MirrorEntry};
use crate::path;
use crate::plan::{self, OnFail, Step, StepView, Verb};
use crate::text;
use crate::util;

verus! {

/// The label of the mirror's launch agent.
pub const LABEL: &'static str = "com.wtx.mirror";

pub open spec fn agent_path(home: Seq<char>) -> Seq<char> {
    path::below(path::below(home, "Library/LaunchAgents"@), LABEL@ + ".plist"@)
}

/// The file that describes the launch agent.
pub fn plist_path(home: &str) -> (r: String)
    ensures
        r@ == agent_path(home@),
{
    let file: String = LABEL.to_owned().concat(".plist");
    path::join(path::join(home, "Library/LaunchAgents").as_str(), file.as_str())
}

/// The socket of a mirrored registry.
pub open spec fn socket_entry(e: EntryView) -> Seq<char> {
    "    <key>"@ + e.registry
        + "</key>\n    <dict>\n      <key>SockNodeName</key><string>127.0.0.1</string>\n      <key>SockServiceName</key><string>"@
        + text::dec(e.port as nat)
        + "</string>\n      <key>SockType</key><string>stream</string>\n    </dict>\n"@
}

pub open spec fn socket_entries(e: Seq<EntryView>) -> Seq<char>
    decreases e.len(),
{
    if e.len() == 0 {
        Seq::empty()
    } else {
        socket_entries(e.drop_last()) + socket_entry(e.last())
    }
}

/// The launch agent listens for every mirrored registry in turn, under its name and on its own port
/// of the local host.
pub proof fn lemma_every_registry_has_its_socket(e: Seq<EntryView>, x: EntryView)
    ensures
        socket_entries(Seq::empty()).len() == 0,
        socket_entries(e.push(x)) == socket_entries(e) + ("    <key>"@ + x.registry
            + "</key>\n    <dict>\n      <key>SockNodeName</key><string>127.0.0.1</string>\n      <key>SockServiceName</key><string>"@
            + text::dec(x.port as nat)
            + "</string>\n      <key>SockType</key><string>stream</string>\n    </dict>\n"@),
{
    assert(e.push(x).drop_last() =~= e);
}

/// The description of the launch agent: one socket for each mirrored registry, and the command
/// that serves them.
pub open spec fn agent_text(exe: Seq<char>, e: Seq<EntryView>, log: Seq<char>) -> Seq<char> {
    "<?xml version=\"1.0\" encoding=\"UTF-8\"?>\n<!DOCTYPE plist PUBLIC \"-//Apple//DTD PLIST 1.0//EN\" \"http://www.apple.com/DTDs/PropertyList-1.0.dtd\">\n<plist version=\"1.0\">\n<dict>\n  <key>Label</key><string>"@
        + LABEL@
        + "</string>\n  <key>ProgramArguments</key>\n  <array>\n    <string>"@
        + exe
        + "</string><string>mirror</string><string>serve</string>\n  </array>\n  <key>Sockets</key>\n  <dict>\n"@
        + socket_entries(e) + "  </dict>\n  <key>StandardOutPath</key><string>"@ + log
        + "</string>\n  <key>StandardErrorPath</key><string>"@ + log
        + "</string>\n</dict>\n</plist>\n"@
}

/// The description of the launch agent names the program with what it serves, the sockets of all
/// registries and the log for both outputs; it is loaded from its own file for the user, after an
/// older one is taken out.
pub proof fn lemma_agent_is_installed(home: Seq<char>, uid: u32, exe: Seq<char>, e: Seq<EntryView>)
    ensures
        ({
            let s = installing(home, uid, exe, e);
            let file = path::below(
                path::below(home, "Library/LaunchAgents"@),
                "com.wtx.mirror"@ + ".plist"@,
            );
            let log = path::below(path::below(home, ".wtx"@), "mirror.log"@);
            &&& s.len() == 4
            &&& s[0].verb == Verb::Launchctl && s[0].on_fail == OnFail::Ignore
            &&& s[0].args == seq![
                "bootout"@,
                "gui/"@ + text::dec(uid as nat) + "/"@ + "com.wtx.mirror"@,
            ]
            &&& s[1].verb == Verb::Write && s[1].args == seq![file, agent_text(exe, e, log)]
            &&& s[2].verb == Verb::Launchctl && s[2].on_fail == OnFail::AbortAs
            &&& s[2].args == seq!["bootstrap"@, "gui/"@ + text::dec(uid as nat), file]
            &&& s[3].verb == Verb::Say
        }),
        ({
            let t = agent_text(exe, e, path::below(util::home_of(home), "mirror.log"@));
            let log = path::below(util::home_of(home), "mirror.log"@);
            let tail = "</string><string>mirror</string><string>serve</string>\n  </array>\n  <key>Sockets</key>\n  <dict>\n"@
                + socket_entries(e) + "  </dict>\n  <key>StandardOutPath</key><string>"@ + log
                + "</string>\n  <key>StandardErrorPath</key><string>"@ + log
                + "</string>\n</dict>\n</plist>\n"@;
            text::has_suffix(t, "<string>"@ + exe + tail)
        }),
{
    let log = path::below(util::home_of(home), "mirror.log"@);
    let t = agent_text(exe, e, log);
    let tail = "</string><string>mirror</string><string>serve</string>\n  </array>\n  <key>Sockets</key>\n  <dict>\n"@
        + socket_entries(e) + "  </dict>\n  <key>StandardOutPath</key><string>"@ + log
        + "</string>\n  <key>StandardErrorPath</key><string>"@ + log
        + "</string>\n</dict>\n</plist>\n"@;
    let before = "</string>\n  <key>ProgramArguments</key>\n  <array>\n    "@;
    reveal_strlit("</string>\n  <key>ProgramArguments</key>\n  <array>\n    <string>");
    reveal_strlit("</string>\n  <key>ProgramArguments</key>\n  <array>\n    ");
    reveal_strlit("<string>");
    assert("</string>\n  <key>ProgramArguments</key>\n  <array>\n    <string>"@ =~= before
        + "<string>"@);
    let q = "<string>"@ + exe + tail;
    assert(t.skip(t.len() - q.len()) =~= q);
}

pub fn plist(exe: &str, config: &Vec<MirrorEntry>, log: &str) -> (r: String)
    ensures
        r@ == agent_text(exe@, mirror::entries(config@), log@),
{
    let ghost e = mirror::entries(config@);
    let mut sockets: String = text::empty();
    let mut i: usize = 0;
    assert(e.take(0) =~= Seq::empty());
    while i < config.len()
        invariant
            i <= config@.len(),
            e == mirror::entries(config@),
            sockets@ == socket_entries(e.take(i as int)),
        decreases config@.len() - i,
    {
        assert(e.take(i + 1).drop_last() =~= e.take(i as int));
        assert(e.take(i + 1).last() == config@[i as int]@);
        let port: String = text::dec_of(config[i].port as u64);
        let one: String = "    <key>".to_owned().concat(config[i].registry.as_str()).concat(
            "</key>\n    <dict>\n      <key>SockNodeName</key><string>127.0.0.1</string>\n      <key>SockServiceName</key><string>",
        ).concat(port.as_str()).concat(
            "</string>\n      <key>SockType</key><string>stream</string>\n    </dict>\n",
        );
        sockets = sockets.concat(one.as_str());
        i += 1;
    }
    assert(e.take(i as int) =~= e);
    "<?xml version=\"1.0\" encoding=\"UTF-8\"?>\n<!DOCTYPE plist PUBLIC \"-//Apple//DTD PLIST 1.0//EN\" \"http://www.apple.com/DTDs/PropertyList-1.0.dtd\">\n<plist version=\"1.0\">\n<dict>\n  <key>Label</key><string>".to_owned().concat(
        LABEL,
    ).concat(
        "</string>\n  <key>ProgramArguments</key>\n  <array>\n    <string>",
    ).concat(exe).concat(
        "</string><string>mirror</string><string>serve</string>\n  </array>\n  <key>Sockets</key>\n  <dict>\n",
    ).concat(sockets.as_str()).concat("  </dict>\n  <key>StandardOutPath</key><string>").concat(
        log,
    ).concat("</string>\n  <key>StandardErrorPath</key><string>").concat(log).concat(
        "</string>\n</dict>\n</plist>\n",
    )
}

pub open spec fn domain(uid: u32) -> Seq<char> {
    "gui/"@ + text::dec(uid as nat)
}

/// What follows the creation of the agent's directory: a mirror that is running gives up its
/// ports, an agent that is loaded is taken out, and the new one is written and loaded.
pub open spec fn installing(
    home: Seq<char>,
    uid: u32,
    exe: Seq<char>,
    e: Seq<EntryView>,
) -> Seq<StepView> {
    let file = agent_path(home);
    seq![
        plan::tries(Verb::Launchctl, seq!["bootout"@, domain(uid) + "/"@ + LABEL@]),
        plan::does(
            Verb::Write,
            seq![file, agent_text(exe, e, path::below(util::home_of(home), "mirror.log"@))],
        ),
        plan::noted(
            Verb::Launchctl,
            seq!["bootstrap"@, domain(uid), file],
            OnFail::AbortAs,
            "launchctl bootstrap"@,
        ),
        plan::says(
            "mirror: registered with launchd; it starts on demand and no process stays resident"@,
        ),
    ]
}

fn gui_domain(uid: u32) -> (r: String)
    ensures
        r@ == domain(uid),
{
    let n: String = text::dec_of(uid as u64);
    "gui/".to_owned().concat(n.as_str())
}

pub fn install(home: &str, uid: u32, exe: &str, config: &Vec<MirrorEntry>) -> (r: Vec<Step>)
    ensures
        plan::steps(r@) == installing(home@, uid, exe@, mirror::entries(config@)),
{
    let file: String = plist_path(home);
    let log: String = path::join(util::wtx_home(home).as_str(), "mirror.log");
    let contents: String = plist(exe, config, log.as_str());
    let d: String = gui_domain(uid);
    let target: String = d.clone().concat("/").concat(LABEL);
    let mut p: Vec<Step> = plan::nothing();
    plan::push(&mut p, plan::attempt(Verb::Launchctl, plan::args2("bootout", target.as_str())));
    plan::push(&mut p, plan::must(Verb::Write, plan::args2(file.as_str(), contents.as_str())));
    plan::push(
        &mut p,
        plan::with_note(
            Verb::Launchctl,
            plan::args3("bootstrap", d.as_str(), file.as_str()),
            OnFail::AbortAs,
            "launchctl bootstrap",
        ),
    );
    plan::push(
        &mut p,
        plan::say("mirror: registered with launchd; it starts on demand and no process stays resident"),
    );
    assert(plan::steps(p@) =~= installing(home@, uid, exe@, mirror::entries(config@)));
    p
}

/// The steps that take the launch agent away.
pub fn uninstall(home: &str, uid: u32) -> (r: Vec<Step>)
    ensures
        plan::steps(r@) == seq![
            plan::tries(Verb::Launchctl, seq!["bootout"@, domain(uid) + "/"@ + LABEL@]),
            plan::does(Verb::RemoveManaged, seq![agent_path(home@)]),
            plan::says("mirror: unregistered from launchd"@),
        ],
{
    let file: String = plist_path(home);
    let d: String = gui_domain(uid);
    let target: String = d.concat("/").concat(LABEL);
    let mut p: Vec<Step> = plan::nothing();
    plan::push(&mut p, plan::attempt(Verb::Launchctl, plan::args2("bootout", target.as_str())));
    plan::push(&mut p, plan::must(Verb::RemoveManaged, plan::args1(file.as_str())));
    plan::push(&mut p, plan::say("mirror: unregistered from launchd"));
    assert(plan::steps(p@) =~= seq![
        plan::tries(Verb::Launchctl, seq!["bootout"@, domain(uid) + "/"@ + LABEL@]),
        plan::does(Verb::RemoveManaged, seq![agent_path(home@)]),
        plan::says("mirror: unregistered from launchd"@),
    ]);
    p
}

} // verus!
