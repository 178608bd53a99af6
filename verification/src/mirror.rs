//! The built-in pull-through registry cache.
//!
//! Only what is needed of a registry: blobs never change under their digest and are cached on
//! disk once their digest verifies; manifests are always asked for upstream, because tags move;
//! and an upstream that wants a token gets one.
use vstd::prelude::*;

use crate::path;
use crate::table;
use crate::text;
use crate::util;

verus! {

// ---------------------------------------------------------------------------
// Configuration
// ---------------------------------------------------------------------------

pub struct MirrorEntry {
    pub registry: String,
    pub port: u16,
    pub upstream: String,
}

pub struct EntryView {
    pub registry: Seq<char>,
    pub port: u16,
    pub upstream: Seq<char>,
}

impl View for MirrorEntry {
    type V = EntryView;

    open spec fn view(&self) -> EntryView {
        EntryView { registry: self.registry@, port: self.port, upstream: self.upstream@ }
    }
}

pub open spec fn entries(v: Seq<MirrorEntry>) -> Seq<EntryView> {
    Seq::new(v.len(), |i: int| v[i]@)
}

/// The address of a registry.
pub open spec fn upstream_of(registry: Seq<char>) -> Seq<char> {
    if registry == "docker.io"@ {
        "https://registry-1.docker.io"@
    } else {
        "https://"@ + registry
    }
}

pub fn upstream_for(registry: &str) -> (r: String)
    ensures
        r@ == upstream_of(registry@),
{
    if text::same(registry, "docker.io") {
        "https://registry-1.docker.io".to_owned()
    } else {
        "https://".to_owned().concat(registry)
    }
}

/// The registry that is mirrored unless the configuration says otherwise, with its port: Docker
/// Engine asks a mirror on its own for Docker Hub alone.
pub open spec fn defaults() -> Seq<(Seq<char>, u16)> {
    seq![("docker.io"@, 5001u16)]
}

pub fn default_mirrors() -> (r: Vec<(String, u16)>)
    ensures
        table::rows(r@) == defaults(),
{
    let r: Vec<(String, u16)> = vec![("docker.io".to_owned(), 5001)];
    assert(table::rows(r@) =~= defaults());
    r
}

/// The ports by registry that a JSON text writes; `None` if it is no such object.
pub uninterp spec fn port_table(s: Seq<char>) -> Option<Seq<(Seq<char>, u16)>>;

/// `serde_json::from_str` into a `BTreeMap<String, u16>`, as the list of its entries: whether the
/// text is a JSON object of port numbers, and which, depends on the text alone; and the entries of
/// such a map come in the order of their keys.
#[verifier::external_body]
fn parse_ports(s: &str) -> (r: Option<Vec<(String, u16)>>)
    ensures
        r is Some == port_table(s@) is Some,
        r matches Some(v) ==> port_table(s@) == Some(table::rows(v@)) && table::sorted(
            table::rows(v@),
        ),
{
    serde_json::from_str::<std::collections::BTreeMap<String, u16>>(s).ok().map(
        |m| m.into_iter().collect(),
    )
}

pub open spec fn entries_for(t: Seq<(Seq<char>, u16)>) -> Seq<EntryView> {
    Seq::new(
        t.len(),
        |i: int| EntryView { registry: t[i].0, port: t[i].1, upstream: upstream_of(t[i].0) },
    )
}

/// The mirrored registries for a configured table; an empty one counts as none.
pub open spec fn configured(t: Option<Seq<(Seq<char>, u16)>>) -> Seq<EntryView> {
    match t {
        Some(x) => if x.len() == 0 {
            entries_for(defaults())
        } else {
            entries_for(x)
        },
        None => entries_for(defaults()),
    }
}

pub open spec fn opt_rows(t: Option<Vec<(String, u16)>>) -> Option<Seq<(Seq<char>, u16)>> {
    match t {
        Some(v) => Some(table::rows(v@)),
        None => None,
    }
}

/// The mirrored registries for a table of ports.
pub fn mirror_entries(table: Option<Vec<(String, u16)>>) -> (r: Vec<MirrorEntry>)
    ensures
        entries(r@) == configured(opt_rows(table)),
{
    let t: Vec<(String, u16)> = match table {
        Some(v) => if v.len() == 0 {
            default_mirrors()
        } else {
            v
        },
        None => default_mirrors(),
    };
    let ghost all = entries_for(table::rows(t@));
    assert(configured(opt_rows(table)) == all);
    let mut out: Vec<MirrorEntry> = Vec::new();
    let mut i: usize = 0;
    assert(entries(out@) =~= all.take(0));
    while i < t.len()
        invariant
            i <= t@.len(),
            all == entries_for(table::rows(t@)),
            entries(out@) == all.take(i as int),
        decreases t@.len() - i,
    {
        let ghost before = entries(out@);
        let registry: String = t[i].0.clone();
        let upstream: String = upstream_for(registry.as_str());
        out.push(MirrorEntry { registry, port: t[i].1, upstream });
        assert(entries(out@) =~= before.push(all[i as int]));
        assert(all.take(i + 1) =~= all.take(i as int).push(all[i as int]));
        i += 1;
    }
    assert(all.take(i as int) =~= all);
    out
}

pub open spec fn table_in(s: Option<Seq<char>>) -> Option<Seq<(Seq<char>, u16)>> {
    match s {
        Some(x) => port_table(x),
        None => None,
    }
}

/// The mirrored registries, from the text of `mirrors.json` if it could be read.
pub fn mirror_config(file: Option<&str>) -> (r: Vec<MirrorEntry>)
    ensures
        entries(r@) == configured(table_in(util::opt_view(file))),
{
    match file {
        Some(s) => mirror_entries(parse_ports(s)),
        None => mirror_entries(None),
    }
}

/// The port of the mirror of Docker Hub among the entries, 5001 if there is none.
pub open spec fn hub_port(e: Seq<EntryView>) -> u16
    decreases e.len(),
{
    if e.len() == 0 {
        5001
    } else if e[0].registry == "docker.io"@ {
        e[0].port
    } else {
        hub_port(e.skip(1))
    }
}

/// The port that VMs use: the one in `WTX_MIRROR_PORT`, if it is a port number, or that of Docker
/// Hub's mirror.
pub fn mirror_port(setting: Option<&str>, config: &Vec<MirrorEntry>) -> (r: u16)
    ensures
        r == match util::opt_view(setting) {
            Some(s) => match text::parsed_u16(s) {
                Some(p) => p,
                None => hub_port(entries(config@)),
            },
            None => hub_port(entries(config@)),
        },
{
    match setting {
        Some(s) => match text::parse_u16(s) {
            Some(p) => {
                return p;
            },
            None => {},
        },
        None => {},
    }
    let ghost e = entries(config@);
    let mut i: usize = 0;
    assert(e.skip(0) =~= e);
    while i < config.len()
        invariant
            i <= config@.len(),
            e == entries(config@),
            hub_port(e) == hub_port(e.skip(i as int)),
            match util::opt_view(setting) {
                Some(s) => text::parsed_u16(s) is None,
                None => true,
            },
        decreases config@.len() - i,
    {
        assert(e.skip(i as int)[0] == config@[i as int]@);
        assert(e.skip(i as int).skip(1) =~= e.skip(i + 1));
        if text::same(config[i].registry.as_str(), "docker.io") {
            return config[i].port;
        }
        i += 1;
    }
    5001
}

/// Every registry of a configured table is mirrored, in the table's order and on its own port, and
/// asked for at its own address, which for Docker Hub is that of its registry. Without a table, or
/// with an empty one, Docker Hub alone is mirrored.
pub proof fn lemma_every_registry_is_mirrored(t: Seq<(Seq<char>, u16)>, i: int)
    ensures
        t.len() > 0 ==> configured(Some(t)).len() == t.len(),
        0 <= i < t.len() ==> {
            let e = configured(Some(t))[i];
            &&& e.registry == t[i].0
            &&& e.port == t[i].1
            &&& t[i].0 == "docker.io"@ ==> e.upstream == "https://registry-1.docker.io"@
            &&& t[i].0 != "docker.io"@ ==> e.upstream == "https://"@ + t[i].0
        },
        configured(None) == configured(Some(seq![("docker.io"@, 5001u16)])),
        configured(Some(Seq::empty())) == configured(None),
{
}

/// VMs use the port of Docker Hub's mirror wherever it stands among the entries.
pub proof fn lemma_hub_port_is_docker_hubs(e: Seq<EntryView>, i: int)
    ensures
        0 <= i < e.len() && e[i].registry == "docker.io"@ && (forall|j: int|
            0 <= j < i ==> (#[trigger] e[j]).registry != "docker.io"@) ==> hub_port(e)
            == e[i].port,
        (forall|j: int| 0 <= j < e.len() ==> (#[trigger] e[j]).registry != "docker.io"@)
            ==> hub_port(e) == 5001,
    decreases e.len(),
{
    if e.len() > 0 && e[0].registry != "docker.io"@ {
        let rest = e.skip(1);
        lemma_hub_port_is_docker_hubs(rest, i - 1);
        if 0 <= i < e.len() && e[i].registry == "docker.io"@ && (forall|j: int|
            0 <= j < i ==> (#[trigger] e[j]).registry != "docker.io"@) {
            assert(rest[i - 1] == e[i]);
            assert forall|j: int| 0 <= j < i - 1 implies (#[trigger] rest[j]).registry
                != "docker.io"@ by {
                assert(rest[j] == e[j + 1]);
            }
        }
        if forall|j: int| 0 <= j < e.len() ==> (#[trigger] e[j]).registry != "docker.io"@ {
            assert forall|j: int| 0 <= j < rest.len() implies (#[trigger] rest[j]).registry
                != "docker.io"@ by {
                assert(rest[j] == e[j + 1]);
            }
        }
    }
}

/// The script points a VM to each mirror in turn: a file of the registry's own names its address and
/// the mirror's port.
pub proof fn lemma_every_mirror_is_applied(e: Seq<EntryView>, x: EntryView)
    ensures
        host_files(Seq::empty()) == "set -eu\n"@,
        host_files(e.push(x)) == host_files(e) + ("sudo mkdir -p /etc/containerd/certs.d/"@
            + x.registry + "\nsudo tee /etc/containerd/certs.d/"@ + x.registry
            + "/hosts.toml >/dev/null <<'EOF'\nserver = \""@ + x.upstream
            + "\"\n\n[host.\"http://host.lima.internal:"@ + text::dec(x.port as nat)
            + "\"]\n  capabilities = [\"pull\", \"resolve\"]\n  skip_verify = true\nEOF\n"@),
{
    assert(e.push(x).drop_last() =~= e);
}

/// The part of the script that points a VM to a mirror.
pub open spec fn host_file(e: EntryView) -> Seq<char> {
    "sudo mkdir -p /etc/containerd/certs.d/"@ + e.registry
        + "\nsudo tee /etc/containerd/certs.d/"@ + e.registry
        + "/hosts.toml >/dev/null <<'EOF'\nserver = \""@ + e.upstream
        + "\"\n\n[host.\"http://host.lima.internal:"@ + text::dec(e.port as nat)
        + "\"]\n  capabilities = [\"pull\", \"resolve\"]\n  skip_verify = true\nEOF\n"@
}

pub open spec fn host_files(e: Seq<EntryView>) -> Seq<char>
    decreases e.len(),
{
    if e.len() == 0 {
        "set -eu\n"@
    } else {
        host_files(e.drop_last()) + host_file(e.last())
    }
}

/// The script that applies the mirrors to a VM. The container runtime reads these files on every
/// pull, so it is not restarted, which would stop running containers.
pub fn apply_to_vm(config: &Vec<MirrorEntry>) -> (r: String)
    ensures
        r@ == host_files(entries(config@)),
{
    let ghost e = entries(config@);
    let mut s: String = "set -eu\n".to_owned();
    let mut i: usize = 0;
    assert(e.take(0) =~= Seq::empty());
    while i < config.len()
        invariant
            i <= config@.len(),
            e == entries(config@),
            s@ == host_files(e.take(i as int)),
        decreases config@.len() - i,
    {
        assert(e.take(i + 1).drop_last() =~= e.take(i as int));
        assert(e.take(i + 1).last() == config@[i as int]@);
        let port: String = text::dec_of(config[i].port as u64);
        let one: String = "sudo mkdir -p /etc/containerd/certs.d/".to_owned().concat(
            config[i].registry.as_str(),
        ).concat("\nsudo tee /etc/containerd/certs.d/").concat(config[i].registry.as_str()).concat(
            "/hosts.toml >/dev/null <<'EOF'\nserver = \"",
        ).concat(config[i].upstream.as_str()).concat(
            "\"\n\n[host.\"http://host.lima.internal:",
        ).concat(port.as_str()).concat(
            "\"]\n  capabilities = [\"pull\", \"resolve\"]\n  skip_verify = true\nEOF\n",
        );
        s = s.concat(one.as_str());
        i += 1;
    }
    assert(e.take(i as int) =~= e);
    s
}

// ---------------------------------------------------------------------------
// Authentication
// ---------------------------------------------------------------------------

/// A request for a token: where to send it, and its query parameters by name.
pub struct TokenRequest {
    pub realm: String,
    pub query: Vec<(String, String)>,
}

/// The parameters with one from a part of a challenge: `name="value"`.
pub open spec fn with_param(t: Seq<(Seq<char>, Seq<char>)>, part: Seq<char>) -> Seq<
    (Seq<char>, Seq<char>),
> {
    match text::split_at_first(text::stripped(part), '=') {
        Some((k, v)) => table::inserted(
            t,
            text::stripped(k),
            text::trimmed(text::stripped(v), text::Trim::Quote),
        ),
        None => t,
    }
}

pub open spec fn params_of(parts: Seq<Seq<char>>) -> Seq<(Seq<char>, Seq<char>)>
    decreases parts.len(),
{
    if parts.len() == 0 {
        Seq::empty()
    } else {
        with_param(params_of(parts.drop_last()), parts.last())
    }
}

/// The parameters of a `Bearer` challenge.
pub open spec fn challenge_params(challenge: Seq<char>) -> Option<Seq<(Seq<char>, Seq<char>)>> {
    match text::without_prefix(text::stripped(challenge), "Bearer "@) {
        Some(rest) => Some(params_of(text::pieces(rest, ','))),
        None => None,
    }
}

/// What a challenge asks for: its realm, and the other parameters as the query.
pub open spec fn token_query(challenge: Seq<char>) -> Option<
    (Seq<char>, Seq<(Seq<char>, Seq<char>)>),
> {
    match challenge_params(challenge) {
        Some(t) => match table::lookup(t, "realm"@) {
            Some(realm) => Some((realm, table::removed(t, "realm"@))),
            None => None,
        },
        None => None,
    }
}

/// Read a `WWW-Authenticate` challenge.
pub fn token_request(challenge: &str) -> (r: Option<TokenRequest>)
    ensures
        r is Some == token_query(challenge@) is Some,
        r matches Some(x) ==> token_query(challenge@) == Some(
            (x.realm@, table::text_rows(x.query@)),
        ),
{
    let rest: &str = match text::strip_prefix(text::trim(challenge), "Bearer ") {
        Some(rest) => rest,
        None => {
            return None;
        },
    };
    let parts: Vec<String> = text::split(rest, ',');
    let ghost t = text::texts(parts@);
    let mut params: Vec<(String, String)> = Vec::new();
    let mut i: usize = 0;
    assert(t.take(0) =~= Seq::empty());
    assert(table::text_rows(params@) =~= Seq::empty());
    while i < parts.len()
        invariant
            i <= parts@.len(),
            t == text::texts(parts@),
            table::text_rows(params@) == params_of(t.take(i as int)),
        decreases parts@.len() - i,
    {
        assert(t.take(i + 1).drop_last() =~= t.take(i as int));
        assert(t.take(i + 1).last() == t[i as int]);
        match text::split_once(text::trim(parts[i].as_str()), '=') {
            Some((k, v)) => {
                let value: &str = text::trim_kind(text::trim(v), &text::Trim::Quote);
                table::insert_text(&mut params, text::trim(k), value);
            },
            None => {},
        }
        i += 1;
    }
    assert(t.take(i as int) =~= t);
    match table::remove_text(&mut params, "realm") {
        Some(realm) => Some(TokenRequest { realm, query: params }),
        None => None,
    }
}

/// Whether a part of a challenge writes a parameter as `name="value"`.
pub open spec fn writes_param(part: Seq<char>, k: Seq<char>, v: Seq<char>) -> bool {
    &&& part == k + "=\""@ + v + "\""@
    &&& k.len() > 0 && !text::is_space(k[0]) && !text::is_space(k.last()) && !k.contains('=')
    &&& !part.contains(',')
    &&& v.len() > 0 && v[0] != '"' && v.last() != '"'
}

proof fn lemma_param_is_read(
    t: Seq<(Seq<char>, Seq<char>)>,
    part: Seq<char>,
    k: Seq<char>,
    v: Seq<char>,
)
    requires
        writes_param(part, k, v),
    ensures
        with_param(t, part) == table::inserted(t, k, v),
        part.len() > 0 && !text::is_space(part[0]) && !text::is_space(part.last()),
{
    reveal_strlit("=\"");
    reveal_strlit("\"");
    assert(part[0] == k[0]);
    assert(part.last() == '"');
    text::lemma_trimmed_same(part, text::Trim::Space);
    let value = "\""@ + v + "\""@;
    assert(part =~= k.push('=') + value);
    text::lemma_split_at_first(k, '=', value);
    text::lemma_trimmed_same(k, text::Trim::Space);
    assert(value[0] == '"' && value.last() == '"');
    text::lemma_trimmed_same(value, text::Trim::Space);
    let q = text::Trim::Quote;
    assert(value.skip(1) =~= v + "\""@);
    assert((v + "\""@)[0] == v[0]);
    assert(text::trimmed_left(v + "\""@, q) == v + "\""@);
    assert(text::trimmed_left(value, q) == text::trimmed_left(value.skip(1), q));
    assert((v + "\""@).last() == '"');
    assert((v + "\""@).drop_last() =~= v);
    assert(text::trimmed_right(v, q) == v);
    assert(text::trimmed(value, q) == v);
}

proof fn lemma_params_are_read(
    parts: Seq<Seq<char>>,
    keys: Seq<Seq<char>>,
    values: Seq<Seq<char>>,
    i: int,
)
    requires
        parts.len() == keys.len() == values.len(),
        forall|j: int| 0 <= j < parts.len() ==> writes_param(#[trigger] parts[j], keys[j], values[j]),
        keys.no_duplicates(),
        0 <= i < parts.len(),
    ensures
        table::lookup(params_of(parts), keys[i]) == Some(values[i]),
        table::sorted(params_of(parts)),
    decreases parts.len(),
{
    let k = parts.len() - 1;
    let (f, ks, vs) = (parts.drop_last(), keys.drop_last(), values.drop_last());
    let before = params_of(f);
    assert(writes_param(parts[k], keys[k], values[k]));
    lemma_param_is_read(before, parts[k], keys[k], values[k]);
    if f.len() > 0 {
        assert forall|j: int| 0 <= j < f.len() implies writes_param(#[trigger] f[j], ks[j], vs[j]) by {
            assert(f[j] == parts[j]);
        }
        lemma_params_are_read(f, ks, vs, if i < k {
            i
        } else {
            0
        });
    }
    table::lemma_lookup_inserted(before, keys[k], values[k], keys[i]);
    table::lemma_sorted(before, keys[k], values[k]);
}

/// A challenge of parameters with different names is answered at its realm, and every other
/// parameter of it is handed on with its value, without the quotes; the realm is not.
pub proof fn lemma_every_parameter_is_handed_on(
    parts: Seq<Seq<char>>,
    keys: Seq<Seq<char>>,
    values: Seq<Seq<char>>,
    r: int,
    i: int,
)
    requires
        parts.len() == keys.len() == values.len(),
        forall|j: int| 0 <= j < parts.len() ==> writes_param(#[trigger] parts[j], keys[j], values[j]),
        keys.no_duplicates(),
        0 <= r < parts.len(),
        keys[r] == "realm"@,
        0 <= i < parts.len(),
        i != r,
    ensures
        token_query("Bearer "@ + text::joined(parts, ","@)) matches Some((realm, query)) && realm
            == values[r] && table::lookup(query, keys[i]) == Some(values[i]) && table::lookup(
            query,
            "realm"@,
        ) is None,
{
    reveal_strlit("Bearer ");
    reveal_strlit(",");
    assert(","@ =~= seq![',']);
    let rest = text::joined(parts, ","@);
    let c = "Bearer "@ + rest;
    assert forall|j: int| 0 <= j < parts.len() implies !(#[trigger] parts[j]).contains(',') by {
        assert(writes_param(parts[j], keys[j], values[j]));
    }
    util::lemma_pieces_of_joined(parts, ',');
    let k = parts.len() - 1;
    assert(writes_param(parts[k], keys[k], values[k]));
    lemma_param_is_read(Seq::empty(), parts[k], keys[k], values[k]);
    assert(rest.len() > 0 && rest.last() == parts[k].last());
    assert(c[0] == 'B');
    assert(c.last() == rest.last());
    text::lemma_trimmed_same(c, text::Trim::Space);
    assert(c.take(7) =~= "Bearer "@);
    assert(c.skip(7) =~= rest);
    lemma_params_are_read(parts, keys, values, r);
    lemma_params_are_read(parts, keys, values, i);
    let t = params_of(parts);
    assert(keys[i] != keys[r]);
    table::lemma_lookup_removed(t, "realm"@, keys[i]);
}

/// The token of an answer: `token`, or `access_token` where that is empty.
pub open spec fn answered_token(token: Seq<char>, access: Seq<char>) -> Option<Seq<char>> {
    let t = if token.len() == 0 {
        access
    } else {
        token
    };
    if t.len() == 0 {
        None
    } else {
        Some(t)
    }
}

/// The token is the one under `token` if there is any there, and else that under `access_token`.
pub proof fn lemma_token(token: Seq<char>, access: Seq<char>)
    ensures
        token.len() > 0 ==> answered_token(token, access) == Some(token),
        token.len() == 0 && access.len() > 0 ==> answered_token(token, access) == Some(access),
        token.len() == 0 && access.len() == 0 ==> answered_token(token, access) is None,
{
}

pub fn pick_token(token: String, access: String) -> (r: Option<String>)
    ensures
        crate::lima::opt_text(r) == answered_token(token@, access@),
{
    let t: String = if token.as_str().is_empty() { access } else { token };
    if t.as_str().is_empty() {
        None
    } else {
        Some(t)
    }
}

/// The status of a request without valid credentials.
pub const UNAUTHORIZED: u16 = 401;

/// An exchange with an upstream registry: one request, and one more with a new token if the
/// first was refused for want of one.
#[derive(Clone, Copy, PartialEq, Eq, Structural, Debug)]
pub enum Exchange {
    First,
    Second,
}

/// What follows an answer of the upstream.
#[derive(Clone, Copy, PartialEq, Eq, Structural, Debug)]
pub enum Next {
    /// Pass the answer on.
    Deliver,
    /// Ask for a token, and then send the request again.
    Authenticate,
}

/// What follows an answer: a first refusal leads to a token, everything else is passed on.
pub fn after_response(x: Exchange, status: u16) -> (r: Next)
    ensures
        r == (if status == UNAUTHORIZED && x == Exchange::First {
            Next::Authenticate
        } else {
            Next::Deliver
        }),
{
    match x {
        Exchange::First => if status == UNAUTHORIZED {
            Next::Authenticate
        } else {
            Next::Deliver
        },
        Exchange::Second => Next::Deliver,
    }
}

/// What follows the attempt to get a token: the second request, or the refused answer itself.
pub fn after_token(obtained: bool) -> (r: Option<Exchange>)
    ensures
        r == (if obtained {
            Some(Exchange::Second)
        } else {
            None
        }),
{
    if obtained {
        Some(Exchange::Second)
    } else {
        None
    }
}

pub fn upstream_url(upstream: &str, path: &str) -> (r: String)
    ensures
        r@ == upstream@ + path@,
{
    upstream.to_owned().concat(path)
}

// ---------------------------------------------------------------------------
// Requests
// ---------------------------------------------------------------------------

/// What a request below `/v2/` is for.
pub enum Route {
    Manifest(String, String),
    Blob(String, String),
    NotFound,
}

pub enum RouteView {
    Manifest(Seq<char>, Seq<char>),
    Blob(Seq<char>, Seq<char>),
    NotFound,
}

impl View for Route {
    type V = RouteView;

    open spec fn view(&self) -> RouteView {
        match self {
            Route::Manifest(n, r) => RouteView::Manifest(n@, r@),
            Route::Blob(n, d) => RouteView::Blob(n@, d@),
            Route::NotFound => RouteView::NotFound,
        }
    }
}

/// The last `/manifests/` or else `/blobs/` parts a repository's name, which may hold slashes,
/// from the reference.
pub open spec fn route_of(rest: Seq<char>) -> RouteView {
    match text::split_at_last(rest, "/manifests/"@) {
        Some((n, r)) => RouteView::Manifest(n, r),
        None => match text::split_at_last(rest, "/blobs/"@) {
            Some((n, d)) => RouteView::Blob(n, d),
            None => RouteView::NotFound,
        },
    }
}

proof fn lemma_split_at_last_marker(n: Seq<char>, p: Seq<char>, r: Seq<char>)
    requires
        p.len() > 0,
        p.last() == '/',
        !r.contains('/'),
    ensures
        text::split_at_last(n + p + r, p) == Some((n, r)),
{
    let s = n + p + r;
    let at = n.len() as int;
    assert(s.subrange(at, at + p.len()) =~= p);
    assert forall|j: int| at < j implies !text::stands_at(s, p, j) by {
        if text::stands_at(s, p, j) {
            let e = j + p.len() - 1;
            assert(s.subrange(j, j + p.len())[p.len() - 1] == s[e]);
            assert(r[e - at - p.len()] == '/');
        }
    }
    text::lemma_rfind_at(s, p, at, s.len() as int);
    assert(s.take(at) =~= n);
    assert(s.skip(at + p.len()) =~= r);
}

/// A request for a manifest or a blob is told by what stands before its reference, whatever slashes
/// the repository's name holds.
pub proof fn lemma_requests_are_told_apart(name: Seq<char>, reference: Seq<char>)
    requires
        !reference.contains('/'),
    ensures
        route_of(name + "/manifests/"@ + reference) == RouteView::Manifest(name, reference),
        !text::has_substring(name + "/blobs/"@ + reference, "/manifests/"@) ==> route_of(
            name + "/blobs/"@ + reference,
        ) == RouteView::Blob(name, reference),
        route_of(reference) == RouteView::NotFound,
{
    reveal_strlit("/manifests/");
    reveal_strlit("/blobs/");
    lemma_split_at_last_marker(name, "/manifests/"@, reference);
    lemma_split_at_last_marker(name, "/blobs/"@, reference);
    let s = name + "/blobs/"@ + reference;
    let m = "/manifests/"@;
    if !text::has_substring(s, m) {
        assert(forall|j: int| !text::stands_at(s, m, j));
        text::lemma_rfind_at(s, m, -1, s.len() as int);
    }
    assert forall|j: int| !text::stands_at(reference, m, j) by {
        if text::stands_at(reference, m, j) {
            assert(reference.subrange(j, j + m.len())[0] == reference[j]);
        }
    }
    assert forall|j: int| !text::stands_at(reference, "/blobs/"@, j) by {
        if text::stands_at(reference, "/blobs/"@, j) {
            assert(reference.subrange(j, j + "/blobs/"@.len())[0] == reference[j]);
        }
    }
    text::lemma_rfind_at(reference, m, -1, reference.len() as int);
    text::lemma_rfind_at(reference, "/blobs/"@, -1, reference.len() as int);
}

pub fn dispatch(rest: &str) -> (r: Route)
    ensures
        r@ == route_of(rest@),
{
    match text::rsplit_once(rest, "/manifests/") {
        Some((n, r)) => Route::Manifest(n.to_owned(), r.to_owned()),
        None => match text::rsplit_once(rest, "/blobs/") {
            Some((n, d)) => Route::Blob(n.to_owned(), d.to_owned()),
            None => Route::NotFound,
        },
    }
}

pub open spec fn all_alnum(s: Seq<char>) -> bool {
    forall|i: int| 0 <= i < s.len() ==> text::is_alnum(#[trigger] s[i])
}

/// The file that caches a blob; `None` if the digest is none.
pub open spec fn cached_at(cache: Seq<char>, digest: Seq<char>) -> Option<Seq<char>> {
    match text::split_at_first(digest, ':') {
        Some((algo, hex)) => if all_alnum(hex) && hex.len() >= 8 {
            Some(path::below(path::below(path::below(cache, "blobs"@), algo), hex))
        } else {
            None
        },
        None => None,
    }
}

fn check_alnum(s: &str) -> (r: bool)
    ensures
        r == all_alnum(s@),
{
    for c in it: s.chars()
        invariant
            it.seq() == s@,
            forall|j: int| 0 <= j < it.index() ==> text::is_alnum(#[trigger] s@[j]),
    {
        if !text::char_is_alnum(c) {
            return false;
        }
    }
    true
}

/// A blob is cached under its algorithm and its digest; what is not such a digest, or could lead to
/// another place, is refused.
pub proof fn lemma_blob_has_its_file(cache: Seq<char>, algo: Seq<char>, hex: Seq<char>)
    requires
        path::tidy(cache),
        path::entry_name(algo),
        !algo.contains(':'),
    ensures
        hex.len() >= 8 && all_alnum(hex) ==> cached_at(cache, algo + ":"@ + hex) == Some(
            cache + "/blobs/"@ + algo + "/"@ + hex,
        ),
        hex.len() < 8 ==> cached_at(cache, algo + ":"@ + hex) is None,
        (exists|i: int|
            0 <= i < hex.len() && !('a' <= #[trigger] hex[i] <= 'z' || 'A' <= hex[i] <= 'Z' || '0'
                <= hex[i] <= '9')) ==> cached_at(cache, algo + ":"@ + hex) is None,
        cached_at(cache, algo) is None,
{
    reveal_strlit(":");
    reveal_strlit("/");
    reveal_strlit(".");
    reveal_strlit("..");
    reveal_strlit("blobs");
    reveal_strlit("/blobs/");
    assert(algo + ":"@ + hex =~= algo.push(':') + hex);
    text::lemma_split_at_first(algo, ':', hex);
    text::lemma_find(algo, ':');
    path::lemma_entry_of_directory(cache, "blobs"@);
    let b = cache + "/"@ + "blobs"@;
    path::lemma_entry_of_directory(b, algo);
    if hex.len() >= 8 && all_alnum(hex) {
        assert(text::is_alnum(hex[0]));
        assert(!hex.contains('/')) by {
            if hex.contains('/') {
                let i = choose|i: int| 0 <= i < hex.len() && hex[i] == '/';
                assert(text::is_alnum(hex[i]));
            }
        }
        path::lemma_entry_of_directory(b + "/"@ + algo, hex);
        assert(b + "/"@ + algo + "/"@ + hex =~= cache + "/blobs/"@ + algo + "/"@ + hex);
    }
    if exists|i: int|
        0 <= i < hex.len() && !('a' <= #[trigger] hex[i] <= 'z' || 'A' <= hex[i] <= 'Z' || '0'
            <= hex[i] <= '9') {
        let i = choose|i: int|
            0 <= i < hex.len() && !('a' <= #[trigger] hex[i] <= 'z' || 'A' <= hex[i] <= 'Z' || '0'
                <= hex[i] <= '9');
        assert(!text::is_alnum(hex[i]));
    }
}

pub fn blob_path(cache: &str, digest: &str) -> (r: Option<String>)
    ensures
        crate::lima::opt_text(r) == cached_at(cache@, digest@),
{
    match text::split_once(digest, ':') {
        Some((algo, hex)) => {
            if !check_alnum(hex) || hex.unicode_len() < 8 {
                return None;
            }
            let dir: String = path::join(cache, "blobs");
            let dir: String = path::join(dir.as_str(), algo);
            Some(path::join(dir.as_str(), hex))
        },
        None => None,
    }
}

/// Two digests of one algorithm that are cached in one file are the same digest.
pub proof fn lemma_blobs_do_not_collide(
    cache: Seq<char>,
    algo: Seq<char>,
    a: Seq<char>,
    b: Seq<char>,
)
    requires
        !algo.contains(':'),
        all_alnum(a),
        all_alnum(b),
        a.len() >= 8,
        b.len() >= 8,
        cached_at(cache, algo.push(':') + a) == cached_at(cache, algo.push(':') + b),
    ensures
        a == b,
{
    text::lemma_split_at_first(algo, ':', a);
    text::lemma_split_at_first(algo, ':', b);
    let dir = path::below(path::below(cache, "blobs"@), algo);
    reveal_strlit("/");
    assert(text::is_alnum(a[0]) && text::is_alnum(b[0]));
    let x = path::below(dir, a);
    let y = path::below(dir, b);
    assert(x == y);
    if dir.len() == 0 || dir.last() == '/' {
        assert(a =~= x.skip(dir.len() as int));
        assert(b =~= y.skip(dir.len() as int));
    } else {
        assert(a =~= x.skip(dir.len() as int + 1));
        assert(b =~= y.skip(dir.len() as int + 1));
    }
}

/// What to do with a request for a blob.
pub enum BlobPlan {
    /// Answer that the digest is none.
    BadDigest,
    /// Serve the file, or else fetch the blob from the upstream, keep it in the file through a
    /// temporary one if its digest verifies, and serve it.
    Serve {
        file: String,
        temporary: String,
        upstream: String,
    },
}

pub open spec fn blob_upstream(name: Seq<char>, digest: Seq<char>) -> Seq<char> {
    "/v2/"@ + name + "/blobs/"@ + digest
}

pub fn handle_blob(cache: &str, name: &str, digest: &str) -> (r: BlobPlan)
    ensures
        match cached_at(cache@, digest@) {
            None => r is BadDigest,
            Some(f) => r matches BlobPlan::Serve { file, temporary, upstream } && file@ == f
                && temporary@ == f + ".tmp"@ && upstream@ == blob_upstream(name@, digest@),
        },
{
    match blob_path(cache, digest) {
        None => BlobPlan::BadDigest,
        Some(file) => {
            let temporary: String = file.clone().concat(".tmp");
            let upstream: String = "/v2/".to_owned().concat(name).concat("/blobs/").concat(digest);
            BlobPlan::Serve { file, temporary, upstream }
        },
    }
}

/// What becomes of an upstream's answer to a request for a blob.
#[derive(Clone, Copy, PartialEq, Eq, Structural, Debug)]
pub enum BlobAnswer {
    /// Keep the body and serve it.
    Keep,
    /// Serve the body without keeping it.
    Pass,
    /// Answer with the upstream's status and a short text.
    Refuse(u16),
}

/// The digest of a body whose SHA-256 is given in hexadecimal digits.
pub open spec fn digest_of(sha256: Seq<char>) -> Seq<char> {
    "sha256:"@ + sha256
}

/// What becomes of an answer, for the digest that was asked for and the SHA-256 of the body. Only
/// a body that was asked for by its own digest is kept.
pub open spec fn answer_to(status: u16, digest: Seq<char>, sha256: Seq<char>) -> BlobAnswer {
    if !(200 <= status < 300) {
        BlobAnswer::Refuse(status)
    } else if digest == digest_of(sha256) {
        BlobAnswer::Keep
    } else {
        BlobAnswer::Pass
    }
}

pub fn blob_answer(status: u16, digest: &str, computed: &str) -> (r: BlobAnswer)
    ensures
        r == answer_to(status, digest@, computed@),
{
    if !(200 <= status && status < 300) {
        return BlobAnswer::Refuse(status);
    }
    let own: String = "sha256:".to_owned().concat(computed);
    if text::same(digest, own.as_str()) {
        BlobAnswer::Keep
    } else {
        BlobAnswer::Pass
    }
}

/// A body whose SHA-256 is not the one that was asked for is never kept, and one whose SHA-256 it
/// is always is, if the upstream answered with success.
pub proof fn lemma_only_verified_bodies_are_kept(status: u16, asked: Seq<char>, sha256: Seq<char>)
    requires
        200 <= status < 300,
    ensures
        (answer_to(status, digest_of(asked), sha256) == BlobAnswer::Keep) == (asked == sha256),
{
    let n = "sha256:"@.len() as int;
    assert(digest_of(asked).skip(n) =~= asked);
    assert(digest_of(sha256).skip(n) =~= sha256);
}

/// The SHA-256 of a body in hexadecimal digits.
pub uninterp spec fn sha256_text(body: Seq<u8>) -> Seq<char>;

pub open spec fn is_hex(c: char) -> bool {
    '0' <= c <= '9' || 'a' <= c <= 'f'
}

/// `sha2::Sha256` through `sha2::Digest::digest`, written in lower-case hexadecimal digits: it
/// depends on the body alone, and a hash of 32 bytes takes 64 digits.
#[verifier::external_body]
fn sha256(body: &[u8]) -> (r: String)
    ensures
        r@ == sha256_text(body@),
        r@.len() == 64,
        forall|i: int| 0 <= i < r@.len() ==> is_hex(#[trigger] r@[i]),
{
    format!("{:x}", <sha2::Sha256 as sha2::Digest>::digest(body))
}

/// Decide about an upstream's answer to a request for a blob. What is kept has a file in every
/// cache.
pub fn received_blob(status: u16, digest: &str, body: &[u8]) -> (r: BlobAnswer)
    ensures
        r == answer_to(status, digest@, sha256_text(body@)),
        r == BlobAnswer::Keep ==> forall|cache: Seq<char>| #[trigger]
            cached_at(cache, digest@) is Some,
{
    let computed: String = sha256(body);
    proof {
        let hex = computed@;
        assert forall|i: int| 0 <= i < hex.len() implies text::is_alnum(#[trigger] hex[i]) by {
            assert(is_hex(hex[i]));
        }
        reveal_strlit("sha256:");
        reveal_strlit("sha256");
        assert(!"sha256"@.contains(':'));
        text::lemma_split_at_first("sha256"@, ':', hex);
        assert("sha256"@.push(':') + hex =~= digest_of(hex));
    }
    blob_answer(status, digest, computed.as_str())
}

// ---------------------------------------------------------------------------
// Ranges
// ---------------------------------------------------------------------------

/// Which part of a blob a request is answered with.
#[derive(Clone, Copy, PartialEq, Eq, Structural, Debug)]
pub enum RangeAnswer {
    Whole,
    /// The bytes from the first to the second position, both of them included.
    Part(u64, u64),
    /// The blob holds none of the requested bytes.
    Unsatisfiable,
}

/// A position in a range: digits alone.
pub open spec fn position(s: Seq<char>) -> Option<nat> {
    if text::has_prefix(s, "+"@) {
        None
    } else {
        text::parsed(s, u64::MAX as nat)
    }
}

fn parse_position(s: &str) -> (r: Option<u64>)
    ensures
        r is Some == position(s@) is Some,
        r matches Some(n) ==> position(s@) == Some(n as nat),
{
    if text::starts_with(s, "+") {
        None
    } else {
        text::parse_number(s, u64::MAX)
    }
}

/// The part of a blob of the given length between two positions; `to` is the last of them, or
/// none for the rest.
pub open spec fn part_between(from: nat, to: Option<nat>, len: u64) -> RangeAnswer {
    match to {
        Some(t) => if t < from {
            RangeAnswer::Whole
        } else if from >= len {
            RangeAnswer::Unsatisfiable
        } else if t < len {
            RangeAnswer::Part(from as u64, t as u64)
        } else {
            RangeAnswer::Part(from as u64, (len - 1) as u64)
        },
        None => if from >= len {
            RangeAnswer::Unsatisfiable
        } else {
            RangeAnswer::Part(from as u64, (len - 1) as u64)
        },
    }
}

/// The last bytes of a blob.
pub open spec fn last_bytes(n: nat, len: u64) -> RangeAnswer {
    if n == 0 || len == 0 {
        RangeAnswer::Unsatisfiable
    } else if n < len {
        RangeAnswer::Part((len - n) as u64, (len - 1) as u64)
    } else {
        RangeAnswer::Part(0, (len - 1) as u64)
    }
}

/// What a `Range` header asks for: `bytes=FIRST-LAST`, `bytes=FIRST-` or `bytes=-COUNT`. Anything
/// else, several ranges among it, is answered with the whole blob.
pub open spec fn range_in(header: Seq<char>, len: u64) -> RangeAnswer {
    match text::without_prefix(text::stripped(header), "bytes="@) {
        None => RangeAnswer::Whole,
        Some(rest) => match text::split_at_first(rest, '-') {
            None => RangeAnswer::Whole,
            Some((a, b)) => if a.len() == 0 {
                match position(b) {
                    Some(n) => last_bytes(n, len),
                    None => RangeAnswer::Whole,
                }
            } else {
                match position(a) {
                    None => RangeAnswer::Whole,
                    Some(from) => if b.len() == 0 {
                        part_between(from, None, len)
                    } else {
                        match position(b) {
                            Some(to) => part_between(from, Some(to), len),
                            None => RangeAnswer::Whole,
                        }
                    },
                }
            },
        },
    }
}

fn between(from: u64, to: u64, len: u64) -> (r: RangeAnswer)
    ensures
        r == part_between(from as nat, Some(to as nat), len),
{
    if to < from {
        RangeAnswer::Whole
    } else if from >= len {
        RangeAnswer::Unsatisfiable
    } else if to < len {
        RangeAnswer::Part(from, to)
    } else {
        RangeAnswer::Part(from, len - 1)
    }
}

/// The part of a blob of the given length that a request asks for.
pub fn blob_range(header: Option<&str>, len: u64) -> (r: RangeAnswer)
    ensures
        r == match util::opt_view(header) {
            Some(h) => range_in(h, len),
            None => RangeAnswer::Whole,
        },
{
    let h: &str = match header {
        Some(h) => h,
        None => {
            return RangeAnswer::Whole;
        },
    };
    let rest: &str = match text::strip_prefix(text::trim(h), "bytes=") {
        Some(rest) => rest,
        None => {
            return RangeAnswer::Whole;
        },
    };
    match text::split_once(rest, '-') {
        None => RangeAnswer::Whole,
        Some((a, b)) => {
            if a.is_empty() {
                return match parse_position(b) {
                    Some(n) => if n == 0 || len == 0 {
                        RangeAnswer::Unsatisfiable
                    } else if n < len {
                        RangeAnswer::Part(len - n, len - 1)
                    } else {
                        RangeAnswer::Part(0, len - 1)
                    },
                    None => RangeAnswer::Whole,
                };
            }
            match parse_position(a) {
                None => RangeAnswer::Whole,
                Some(from) => if b.is_empty() {
                    if from >= len {
                        RangeAnswer::Unsatisfiable
                    } else {
                        RangeAnswer::Part(from, len - 1)
                    }
                } else {
                    match parse_position(b) {
                        Some(to) => between(from, to, len),
                        None => RangeAnswer::Whole,
                    }
                },
            }
        },
    }
}

/// A range asks for the bytes from its first position to its last, as far as there are any; without
/// a last one for all the rest; and with a count alone for that many bytes at the end.
pub proof fn lemma_range_is_what_was_asked_for(from: u64, to: u64, n: u64, len: u64)
    ensures
        from <= to && to < len ==> range_in(
            "bytes="@ + text::dec(from as nat) + "-"@ + text::dec(to as nat),
            len,
        ) == RangeAnswer::Part(from, to),
        from < len && to >= len ==> range_in(
            "bytes="@ + text::dec(from as nat) + "-"@ + text::dec(to as nat),
            len,
        ) == RangeAnswer::Part(from, (len - 1) as u64),
        len <= from && from <= to ==> range_in(
            "bytes="@ + text::dec(from as nat) + "-"@ + text::dec(to as nat),
            len,
        ) == RangeAnswer::Unsatisfiable,
        to < from ==> range_in(
            "bytes="@ + text::dec(from as nat) + "-"@ + text::dec(to as nat),
            len,
        ) == RangeAnswer::Whole,
        from < len ==> range_in("bytes="@ + text::dec(from as nat) + "-"@, len)
            == RangeAnswer::Part(from, (len - 1) as u64),
        0 < n && n <= len ==> range_in("bytes="@ + "-"@ + text::dec(n as nat), len)
            == RangeAnswer::Part((len - n) as u64, (len - 1) as u64),
        n == 0 ==> range_in("bytes="@ + "-"@ + text::dec(n as nat), len)
            == RangeAnswer::Unsatisfiable,
{
    lemma_range_is_read(text::dec(from as nat), text::dec(to as nat));
    lemma_range_is_read(text::dec(from as nat), Seq::empty());
    lemma_range_is_read(Seq::empty(), text::dec(n as nat));
    lemma_position(from);
    lemma_position(to);
    lemma_position(n);
    assert("bytes="@ + text::dec(from as nat) + "-"@ + Seq::<char>::empty() =~= "bytes="@
        + text::dec(from as nat) + "-"@);
    assert("bytes="@ + Seq::<char>::empty() + "-"@ + text::dec(n as nat) =~= "bytes="@ + "-"@
        + text::dec(n as nat));
}

proof fn lemma_position(n: u64)
    ensures
        position(text::dec(n as nat)) == Some(n as nat),
        text::dec(n as nat).len() > 0,
        text::all_digits(text::dec(n as nat)),
{
    reveal_strlit("+");
    let d = text::dec(n as nat);
    text::lemma_dec(n as nat);
    text::lemma_parse_dec(n as nat, u64::MAX as nat);
    assert(text::is_digit(d[0]));
    if text::has_prefix(d, "+"@) {
        assert(d.take(1)[0] == d[0]);
    }
}

proof fn lemma_range_is_read(a: Seq<char>, b: Seq<char>)
    ensures
        text::all_digits(a) && text::all_digits(b) ==> {
            let h = "bytes="@ + a + "-"@ + b;
            &&& text::without_prefix(text::stripped(h), "bytes="@) == Some(a + "-"@ + b)
            &&& text::split_at_first(a + "-"@ + b, '-') == Some((a, b))
        },
{
    if text::all_digits(a) && text::all_digits(b) {
        reveal_strlit("bytes=");
        reveal_strlit("-");
        let h = "bytes="@ + a + "-"@ + b;
        assert(h[0] == 'b');
        if b.len() > 0 {
            assert(h.last() == b.last());
            assert(text::is_digit(b[b.len() - 1]));
        } else {
            assert(h.last() == '-');
        }
        text::lemma_trimmed_same(h, text::Trim::Space);
        assert(h.take(6) =~= "bytes="@);
        assert(h.skip(6) =~= a + "-"@ + b);
        assert(!a.contains('-')) by {
            if a.contains('-') {
                let i = choose|i: int| 0 <= i < a.len() && a[i] == '-';
                assert(text::is_digit(a[i]));
            }
        }
        text::lemma_split_at_first(a, '-', b);
        assert(a.push('-') + b =~= a + "-"@ + b);
    }
}

/// A part lies inside the blob, and is never empty.
pub proof fn lemma_range_is_inside(header: Seq<char>, len: u64)
    ensures
        range_in(header, len) matches RangeAnswer::Part(from, to) ==> from <= to < len,
{
}

/// The `Content-Range` of an answer to a request for a part.
pub fn content_range(x: RangeAnswer, len: u64) -> (r: Option<String>)
    ensures
        crate::lima::opt_text(r) == match x {
            RangeAnswer::Whole => None,
            RangeAnswer::Part(from, to) => Some(
                "bytes "@ + text::dec(from as nat) + "-"@ + text::dec(to as nat) + "/"@ + text::dec(
                    len as nat,
                ),
            ),
            RangeAnswer::Unsatisfiable => Some("bytes */"@ + text::dec(len as nat)),
        },
{
    let n: String = text::dec_of(len);
    match x {
        RangeAnswer::Whole => None,
        RangeAnswer::Part(from, to) => {
            let a: String = text::dec_of(from);
            let b: String = text::dec_of(to);
            Some(
                "bytes ".to_owned().concat(a.as_str()).concat("-").concat(b.as_str()).concat(
                    "/",
                ).concat(n.as_str()),
            )
        },
        RangeAnswer::Unsatisfiable => Some("bytes */".to_owned().concat(n.as_str())),
    }
}

/// The path of a manifest at the upstream, where it is asked for every time.
pub fn handle_manifest(name: &str, reference: &str) -> (r: String)
    ensures
        r@ == "/v2/"@ + name@ + "/manifests/"@ + reference@,
{
    "/v2/".to_owned().concat(name).concat("/manifests/").concat(reference)
}

/// Whether a header of the upstream's answer is passed on with a manifest.
pub fn passes_header(name: &str) -> (r: bool)
    ensures
        r == (name@ == "content-type"@ || name@ == "docker-content-digest"@ || name@ == "etag"@),
{
    text::same(name, "content-type") || text::same(name, "docker-content-digest") || text::same(
        name,
        "etag",
    )
}

// ---------------------------------------------------------------------------
// Life cycle
// ---------------------------------------------------------------------------

/// Whether a mirror that was started on demand has been idle for so long, in seconds, that it
/// exits; the next access starts it again.
pub fn idle(now: i64, last_activity: i64) -> (r: bool)
    ensures
        r == (now - last_activity > 600),
{
    now as i128 - last_activity as i128 > 600
}

/// The line for a mirror that is up.
pub fn up_line(port: u16) -> (r: String)
    ensures
        r@ == "mirror: up (127.0.0.1:"@ + text::dec(port as nat) + " and others)"@,
{
    let p: String = text::dec_of(port as u64);
    "mirror: up (127.0.0.1:".to_owned().concat(p.as_str()).concat(" and others)")
}

/// One turn of waiting for a mirror to come up.
#[derive(Clone, Copy, PartialEq, Eq, Structural, Debug)]
pub enum Startup {
    Up,
    /// Sleep for a quarter of a second and look again.
    Wait,
    Failed,
}

/// Look for the mirror up to twenty times.
pub fn startup(alive: bool, attempts: u32) -> (r: Startup)
    ensures
        r == (if attempts >= 20 {
            Startup::Failed
        } else if alive {
            Startup::Up
        } else {
            Startup::Wait
        }),
{
    if attempts >= 20 {
        Startup::Failed
    } else if alive {
        Startup::Up
    } else {
        Startup::Wait
    }
}

/// The process of a mirror, from the text of its file.
pub fn recorded_pid(file: &str) -> (r: Option<i32>)
    ensures
        r is Some == text::parsed_i32(text::stripped(file@)) is Some,
        r matches Some(n) ==> text::parsed_i32(text::stripped(file@)) == Some(n as int),
{
    text::parse_i32(text::trim(file))
}

pub open spec fn mode_line(on_demand: bool) -> Seq<char> {
    if on_demand {
        "mode: launchd on-demand (starts on access, exits after 10 min idle)"@
    } else {
        "mode: manual (wtx mirror up)"@
    }
}

pub open spec fn entry_lines(e: Seq<EntryView>, alive: Seq<u16>) -> Seq<Seq<char>> {
    Seq::new(
        e.len(),
        |i: int|
            "  "@ + util::padded(e[i].registry, e[i].registry.len(), 16) + " :"@ + text::dec(
                e[i].port as nat,
            ) + "  "@ + (if alive.contains(e[i].port) {
                "up"@
            } else {
                "down"@
            }),
    )
}

/// Every mirror has its line, in its place, with its registry, its port and whether it answers.
pub proof fn lemma_every_mirror_has_its_line(e: Seq<EntryView>, alive: Seq<u16>, i: int)
    ensures
        entry_lines(e, alive).len() == e.len(),
        0 <= i < e.len() ==> {
            let begin = "  "@ + e[i].registry + text::spaces(
                if e[i].registry.len() < 16 {
                    (16 - e[i].registry.len()) as nat
                } else {
                    0
                },
            ) + " :"@ + text::dec(e[i].port as nat) + "  "@;
            &&& alive.contains(e[i].port) ==> entry_lines(e, alive)[i] == begin + "up"@
            &&& !alive.contains(e[i].port) ==> entry_lines(e, alive)[i] == begin + "down"@
        },
{
    if 0 <= i < e.len() {
        let pad = text::spaces(
            if e[i].registry.len() < 16 {
                (16 - e[i].registry.len()) as nat
            } else {
                0
            },
        );
        assert("  "@ + (e[i].registry + pad) =~= "  "@ + e[i].registry + pad);
    }
}

/// The lines of `wtx mirror status`; `alive` holds the ports that answer.
pub fn status(on_demand: bool, config: &Vec<MirrorEntry>, alive: &Vec<u16>) -> (r: Vec<String>)
    ensures
        text::texts(r@) == seq![mode_line(on_demand)] + entry_lines(entries(config@), alive@),
{
    let mode: &str = if on_demand {
        "mode: launchd on-demand (starts on access, exits after 10 min idle)"
    } else {
        "mode: manual (wtx mirror up)"
    };
    let mut out: Vec<String> = crate::plan::args1(mode);
    let ghost head = text::texts(out@);
    let ghost all = entry_lines(entries(config@), alive@);
    let mut i: usize = 0;
    assert(head + all.take(0) =~= head);
    while i < config.len()
        invariant
            i <= config@.len(),
            all == entry_lines(entries(config@), alive@),
            text::texts(out@) == head + all.take(i as int),
        decreases config@.len() - i,
    {
        let registry: &str = config[i].registry.as_str();
        let column: String = util::pad_measured(registry, registry.unicode_len(), 16);
        let port: String = text::dec_of(config[i].port as u64);
        let word: &str = if crate::port::contains_port(alive, config[i].port) {
            "up"
        } else {
            "down"
        };
        let line: String = "  ".to_owned().concat(column.as_str()).concat(" :").concat(
            port.as_str(),
        ).concat("  ").concat(word);
        text::push_string(&mut out, line);
        assert(text::texts(out@) =~= head + all.take(i as int).push(all[i as int]));
        assert(all.take(i + 1) =~= all.take(i as int).push(all[i as int]));
        i += 1;
    }
    assert(all.take(i as int) =~= all);
    out
}

} // verus!
