//! Copying the host's credentials into a VM.
//!
//! They are copied and never mounted: with a writable mount, an agent in the VM could change
//! settings that run on the host.
use vstd::prelude::*;

use crate::path;
use crate::sshx::{self, ScriptCall};
use crate::text;

verus! {

/// The name of a coding agent's directory in a home directory.
pub open spec fn agent_dir(agent: Seq<char>) -> Seq<char> {
    "."@ + agent
}

pub fn agent_dir_name(agent: &str) -> (r: String)
    ensures
        r@ == agent_dir(agent@),
{
    ".".to_owned().concat(agent)
}

/// A coding agent's directory in a home directory.
pub fn agent_home(home: &str, agent: &str) -> (r: String)
    ensures
        r@ == path::below(home@, agent_dir(agent@)),
{
    path::join(home, agent_dir_name(agent).as_str())
}

/// The script that stores its standard input as the VM's credentials.
pub open spec fn store_script(agent: Seq<char>) -> Seq<char> {
    "mkdir -p ~/"@ + agent_dir(agent) + " && cat > ~/"@ + agent_dir(agent)
        + "/.credentials.json && chmod 600 ~/"@ + agent_dir(agent) + "/.credentials.json"@
}

/// Credentials are stored in the agent's own directory of the VM, which is made first, in a file that
/// only its owner reads.
pub proof fn lemma_credentials_are_stored_privately(agent: Seq<char>)
    ensures
        agent_dir(agent) == "."@ + agent,
        store_script(agent) == "mkdir -p ~/"@ + ("."@ + agent) + " && cat > ~/"@ + ("."@ + agent)
            + "/.credentials.json && chmod 600 ~/"@ + ("."@ + agent) + "/.credentials.json"@,
{
}

/// The host's credentials file.
pub fn credentials_path(home: &str, agent: &str) -> (r: String)
    ensures
        r@ == path::below(path::below(home@, agent_dir(agent@)), ".credentials.json"@),
{
    path::join(agent_home(home, agent).as_str(), ".credentials.json")
}

pub fn credentials_missing(file: &str) -> (r: String)
    ensures
        r@ == "host credentials not found ("@ + file@ + ")"@,
{
    "host credentials not found (".to_owned().concat(file).concat(")")
}

/// The script call that stores credentials in a VM; the credentials follow the script on standard
/// input.
pub fn copy_claude_creds(home: &str, vm: &str, agent: &str) -> (r: ScriptCall)
    ensures
        text::texts(r.args@) == sshx::base(home@, vm@) + seq![
            sshx::host_of(vm@),
            "--"@,
            "bash"@,
            "-s"@,
        ],
        r.input@ == sshx::whole_lines(store_script(agent@)),
{
    let dir: String = agent_dir_name(agent);
    let script: String = "mkdir -p ~/".to_owned().concat(dir.as_str()).concat(" && cat > ~/").concat(
        dir.as_str(),
    ).concat("/.credentials.json && chmod 600 ~/").concat(dir.as_str()).concat(
        "/.credentials.json",
    );
    sshx::vm_script(home, vm, script.as_str())
}

} // verus!
