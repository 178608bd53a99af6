# wtx

One Linux VM per git worktree, run by Lima on the host: its own Docker daemon, databases and
ports, and optionally an iOS simulator of its own.

- `src/` is the library. It holds every rule of the program: names, mounts, provisioning paths,
  removal and the sweep of orphans, ports and forwards, the registry mirrors' cache, release
  checks, simulators, and the state and the picture of the interactive console. Each function has
  a contract that Verus proves. The library reads and writes nothing. It takes facts about the host as plain values and
  answers with plans: lists of steps, each with what happens if it fails.
- `app/` is the program around it. It gathers the facts, works off the plans, serves the mirrors
  and draws the console.
- `tests/` runs the library from outside.

The text of scripts and configurations is part of the contracts, as are the laws that hold of the
whole: a word quoted for the shell arrives unchanged, a socket belongs to one VM, a VM created
without access to credentials never gains it, an ordinary repository is never removed, a VM whose
commits may exist nowhere else is never deleted in bulk, a blob is kept only under its own digest,
and a refused command touches no VM.

What the library takes on trust stands behind small functions marked `external_body`: JSON from
`serde_json`, release versions from `semver`, the width of text on a terminal from `unicode-width`,
SHA-256 from `sha2`, and `str::to_lowercase` of the standard library. One declaration gives
`String::push` its meaning.
