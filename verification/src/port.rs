//! Named host ports for services that run inside a VM.
use vstd::prelude::*;

use crate::json::{self, Json, JsonView};
use crate::lima::{self, InstanceMeta, MetaView, PortMap};
use crate::table;
use crate::text;
use crate::util;

verus! {

pub const PORT_LO: u16 = 42000;

pub const PORT_HI: u16 = 42999;

// ---------------------------------------------------------------------------
// Allocation
// ---------------------------------------------------------------------------

/// Whether a mapping of the table uses the host port.
pub open spec fn maps(ports: Seq<(Seq<char>, PortMap)>, p: u16) -> bool {
    exists|i: int| 0 <= i < ports.len() && (#[trigger] ports[i]).1.host == p
}

/// The lowest port from `p` on that is neither taken nor used by a mapping.
pub open spec fn first_free(taken: Seq<u16>, ports: Seq<(Seq<char>, PortMap)>, p: int) -> Option<u16>
    decreases PORT_HI + 1 - p,
{
    if p < 0 || p > PORT_HI {
        None
    } else if taken.contains(p as u16) || maps(ports, p as u16) {
        first_free(taken, ports, p + 1)
    } else {
        Some(p as u16)
    }
}

/// Whether a list holds a port.
pub fn contains_port(v: &Vec<u16>, p: u16) -> (r: bool)
    ensures
        r == v@.contains(p),
{
    let mut i: usize = 0;
    while i < v.len()
        invariant
            i <= v@.len(),
            forall|j: int| 0 <= j < i ==> v@[j] != p,
        decreases v@.len() - i,
    {
        if v[i] == p {
            return true;
        }
        i += 1;
    }
    false
}

fn maps_port(ports: &Vec<(String, PortMap)>, p: u16) -> (r: bool)
    ensures
        r == maps(table::rows(ports@), p),
{
    let ghost t = table::rows(ports@);
    let mut i: usize = 0;
    while i < ports.len()
        invariant
            i <= ports@.len(),
            t == table::rows(ports@),
            forall|j: int| 0 <= j < i ==> (#[trigger] t[j]).1.host != p,
        decreases ports@.len() - i,
    {
        assert(t[i as int].1 == ports@[i as int].1);
        if ports[i].1.host == p {
            return true;
        }
        i += 1;
    }
    false
}

/// Allocate a host port that no mapping uses; `taken` holds the ports that other VMs recorded and
/// those that could not be bound.
pub fn alloc_host_port(ports: &Vec<(String, PortMap)>, taken: &Vec<u16>) -> (r: Option<u16>)
    ensures
        r == first_free(taken@, table::rows(ports@), PORT_LO as int),
{
    let mut p: u16 = PORT_LO;
    while p <= PORT_HI
        invariant
            PORT_LO <= p <= PORT_HI + 1,
            first_free(taken@, table::rows(ports@), PORT_LO as int) == first_free(
                taken@,
                table::rows(ports@),
                p as int,
            ),
        decreases PORT_HI + 1 - p,
    {
        if !contains_port(taken, p) && !maps_port(ports, p) {
            return Some(p);
        }
        p += 1;
    }
    None
}

/// The error when every port of the range is in use.
pub open spec fn exhausted() -> Seq<char> {
    "no free host port in 42000-42999"@
}

/// An allocated port lies in the range, nobody has it, and no lower port was free; allocation
/// fails only if somebody has every port of the range.
pub proof fn lemma_alloc(taken: Seq<u16>, ports: Seq<(Seq<char>, PortMap)>, from: int)
    requires
        0 <= from <= PORT_HI + 1,
    ensures
        first_free(taken, ports, from) matches Some(p) ==> from <= p <= PORT_HI && !taken.contains(
            p,
        ) && !maps(ports, p) && (forall|q: u16|
            from <= q < p ==> taken.contains(q) || #[trigger] maps(ports, q)),
        first_free(taken, ports, from) is None ==> forall|q: u16|
            from <= q <= PORT_HI ==> taken.contains(q) || #[trigger] maps(ports, q),
    decreases PORT_HI + 1 - from,
{
    if from <= PORT_HI && (taken.contains(from as u16) || maps(ports, from as u16)) {
        lemma_alloc(taken, ports, from + 1);
    }
}

/// The mappings of a clone: the labels and guest ports of the source with new host ports, and
/// the labels for which no port was left.
pub open spec fn inherited(src: Seq<(Seq<char>, PortMap)>, taken: Seq<u16>) -> (
    Seq<(Seq<char>, PortMap)>,
    Seq<Seq<char>>,
)
    decreases src.len(),
{
    if src.len() == 0 {
        (Seq::empty(), Seq::empty())
    } else {
        let (out, missing) = inherited(src.drop_last(), taken);
        let (label, port) = src.last();
        match first_free(taken, out, PORT_LO as int) {
            Some(host) => (
                table::inserted(out, label, PortMap { host, guest: port.guest }),
                missing,
            ),
            None => (out, missing.push(label)),
        }
    }
}

/// Keep the labels and guest ports of a source and allocate new host ports.
pub fn inherit_ports(src: &Vec<(String, PortMap)>, taken: &Vec<u16>) -> (r: (
    Vec<(String, PortMap)>,
    Vec<String>,
))
    ensures
        (table::rows(r.0@), text::texts(r.1@)) == inherited(table::rows(src@), taken@),
        table::sorted(table::rows(r.0@)),
{
    let mut out: Vec<(String, PortMap)> = Vec::new();
    let mut missing: Vec<String> = Vec::new();
    let ghost t = table::rows(src@);
    let mut i: usize = 0;
    assert(t.take(0) =~= Seq::empty());
    assert(table::rows(out@) =~= Seq::empty());
    assert(text::texts(missing@) =~= Seq::empty());
    while i < src.len()
        invariant
            i <= src@.len(),
            t == table::rows(src@),
            (table::rows(out@), text::texts(missing@)) == inherited(t.take(i as int), taken@),
        decreases src@.len() - i,
    {
        assert(t.take(i + 1).drop_last() =~= t.take(i as int));
        assert(t.take(i + 1).last() == t[i as int]);
        match alloc_host_port(&out, taken) {
            Some(host) => {
                let guest: u16 = src[i].1.guest;
                table::insert(&mut out, src[i].0.clone(), PortMap { host, guest });
            },
            None => {
                text::push_text(&mut missing, src[i].0.as_str());
            },
        }
        i += 1;
    }
    assert(t.take(i as int) =~= t);
    proof {
        lemma_inherited_is_sorted(t, taken@);
    }
    (out, missing)
}

proof fn lemma_inherited_is_sorted(src: Seq<(Seq<char>, PortMap)>, taken: Seq<u16>)
    ensures
        table::sorted(inherited(src, taken).0),
    decreases src.len(),
{
    if src.len() > 0 {
        lemma_inherited_is_sorted(src.drop_last(), taken);
        let out = inherited(src.drop_last(), taken).0;
        let (label, port) = src.last();
        match first_free(taken, out, PORT_LO as int) {
            Some(host) => {
                table::lemma_sorted(out, label, PortMap { host, guest: port.guest });
            },
            None => {},
        }
    }
}

/// No two mappings share a host port.
pub open spec fn distinct_hosts(ports: Seq<(Seq<char>, PortMap)>) -> bool {
    forall|i: int, j: int|
        #![trigger ports[i], ports[j]]
        0 <= i < j < ports.len() ==> ports[i].1.host != ports[j].1.host
}

proof fn lemma_inserted_hosts(t: Seq<(Seq<char>, PortMap)>, k: Seq<char>, v: PortMap)
    requires
        distinct_hosts(t),
        !maps(t, v.host),
    ensures
        distinct_hosts(table::inserted(t, k, v)),
        forall|i: int|
            0 <= i < table::inserted(t, k, v).len() ==> (#[trigger] table::inserted(t, k, v)[i] == (
                k,
                v,
            ) || t.contains(table::inserted(t, k, v)[i])),
    decreases t.len(),
{
    let r = table::inserted(t, k, v);
    if t.len() > 0 && t[0].0 != k && !text::precedes(k, t[0].0) {
        let rest = t.skip(1);
        assert forall|i: int, j: int|
            #![trigger rest[i], rest[j]]
            0 <= i < j < rest.len() implies rest[i].1.host != rest[j].1.host by {
            assert(rest[i] == t[i + 1] && rest[j] == t[j + 1]);
        }
        if maps(rest, v.host) {
            let i = choose|i: int| 0 <= i < rest.len() && (#[trigger] rest[i]).1.host == v.host;
            assert(t[i + 1].1.host == v.host);
        }
        lemma_inserted_hosts(rest, k, v);
        let q = table::inserted(rest, k, v);
        assert forall|i: int| 0 <= i < r.len() implies (#[trigger] r[i] == (k, v) || t.contains(
            r[i],
        )) && (i > 0 ==> r[i].1.host != r[0].1.host) by {
            if i == 0 {
                assert(r[0] == t[0]);
            } else {
                assert(r[i] == q[i - 1]);
                if q[i - 1] != (k, v) {
                    let m = choose|m: int| 0 <= m < rest.len() && rest[m] == q[i - 1];
                    assert(t[m + 1] == r[i]);
                    assert(t[0].1.host != t[m + 1].1.host);
                } else {
                    assert(t[0].1.host != v.host);
                }
            }
        }
        assert forall|i: int, j: int|
            #![trigger r[i], r[j]]
            0 <= i < j < r.len() implies r[i].1.host != r[j].1.host by {
            if i > 0 {
                assert(r[i] == q[i - 1] && r[j] == q[j - 1]);
            }
        }
    } else {
        let off: int = if t.len() > 0 && t[0].0 == k {
            0
        } else {
            1
        };
        assert forall|i: int| 0 < i < r.len() implies #[trigger] r[i] == t[i - off] by {}
        assert forall|i: int| 0 <= i < r.len() implies (#[trigger] r[i] == (k, v) || t.contains(
            r[i],
        )) by {
            if i > 0 {
                assert(r[i] == t[i - off]);
            }
        }
        assert forall|i: int, j: int|
            #![trigger r[i], r[j]]
            0 <= i < j < r.len() implies r[i].1.host != r[j].1.host by {
            assert(r[j] == t[j - off]);
            if i > 0 {
                assert(r[i] == t[i - off]);
            }
        }
    }
}

/// Inherited mappings have host ports of their own: each lies in the range, differs from every
/// port that is taken and from each other's, and keeps a label of the source with its guest port.
pub proof fn lemma_inherited(src: Seq<(Seq<char>, PortMap)>, taken: Seq<u16>)
    ensures
        distinct_hosts(inherited(src, taken).0),
        forall|i: int|
            0 <= i < inherited(src, taken).0.len() ==> {
                let (label, p) = #[trigger] inherited(src, taken).0[i];
                &&& PORT_LO <= p.host <= PORT_HI
                &&& !taken.contains(p.host)
                &&& exists|j: int|
                    0 <= j < src.len() && (#[trigger] src[j]).0 == label && src[j].1.guest
                        == p.guest
            },
    decreases src.len(),
{
    if src.len() > 0 {
        let front = src.drop_last();
        lemma_inherited(front, taken);
        let (out, missing) = inherited(front, taken);
        let (label, port) = src.last();
        lemma_alloc(taken, out, PORT_LO as int);
        let fin = inherited(src, taken).0;
        match first_free(taken, out, PORT_LO as int) {
            Some(host) => {
                lemma_inserted_hosts(out, label, PortMap { host, guest: port.guest });
            },
            None => {},
        }
        assert forall|i: int| 0 <= i < fin.len() implies {
            let (l, p) = #[trigger] fin[i];
            &&& PORT_LO <= p.host <= PORT_HI
            &&& !taken.contains(p.host)
            &&& exists|j: int|
                0 <= j < src.len() && (#[trigger] src[j]).0 == l && src[j].1.guest == p.guest
        } by {
            let (l, p) = fin[i];
            if out.contains(fin[i]) {
                let m = choose|m: int| 0 <= m < out.len() && out[m] == fin[i];
                assert(PORT_LO <= out[m].1.host);
                let j = choose|j: int|
                    0 <= j < front.len() && (#[trigger] front[j]).0 == l && front[j].1.guest
                        == p.guest;
                assert(src[j] == front[j]);
            } else {
                assert(src[src.len() - 1].0 == l);
            }
        }
    }
}

/// Every label of a source is inherited with its guest port, or is among those for which no port
/// was left; and no port is left only if somebody has every port of the range.
pub proof fn lemma_every_label_is_inherited(
    src: Seq<(Seq<char>, PortMap)>,
    taken: Seq<u16>,
    j: int,
)
    requires
        0 <= j < src.len(),
        forall|a: int, b: int|
            #![trigger src[a], src[b]]
            0 <= a < b < src.len() ==> src[a].0 != src[b].0,
    ensures
        (table::lookup(inherited(src, taken).0, src[j].0) matches Some(p) && p.guest
            == src[j].1.guest) || inherited(src, taken).1.contains(src[j].0),
        inherited(src, taken).1.len() > 0 ==> forall|q: u16|
            PORT_LO <= q <= PORT_HI ==> taken.contains(q) || #[trigger] maps(
                inherited(src, taken).0,
                q,
            ),
    decreases src.len(),
{
    let f = src.drop_last();
    let (out, missing) = inherited(f, taken);
    let (label, port) = src.last();
    let (all, lost) = inherited(src, taken);
    lemma_alloc(taken, out, PORT_LO as int);
    assert(src[src.len() - 1] == src.last());
    if f.len() > 0 {
        let k = if j < f.len() {
            j
        } else {
            0
        };
        assert forall|a: int, b: int|
            #![trigger f[a], f[b]]
            0 <= a < b < f.len() implies f[a].0 != f[b].0 by {
            assert(f[a] == src[a] && f[b] == src[b]);
        }
        lemma_every_label_is_inherited(f, taken, k);
    }
    match first_free(taken, out, PORT_LO as int) {
        Some(host) => {
            table::lemma_lookup_inserted(out, label, PortMap { host, guest: port.guest }, src[j].0);
            if j < f.len() {
                assert(f[j] == src[j]);
            }
            if missing.len() > 0 {
                assert(taken.contains(host) || maps(out, host));
            }
        },
        None => {
            if j < f.len() {
                assert(f[j] == src[j]);
                if missing.contains(src[j].0) {
                    let k = choose|k: int| 0 <= k < missing.len() && missing[k] == src[j].0;
                    assert(lost[k] == src[j].0);
                }
            } else {
                assert(lost[lost.len() - 1] == label);
            }
        },
    }
}

/// The warning for a label that found no host port.
pub fn not_inherited(label: &str) -> (r: String)
    ensures
        r@ == "wtx: warning: port "@ + label@ + " not inherited: "@ + exhausted(),
{
    "wtx: warning: port ".to_owned().concat(label).concat(" not inherited: ").concat(
        "no free host port in 42000-42999",
    )
}

// ---------------------------------------------------------------------------
// Labels
// ---------------------------------------------------------------------------

/// A character of a label in an environment variable's name.
pub open spec fn env_char(c: char) -> char {
    if text::is_alnum(c) {
        text::upper(c)
    } else {
        '_'
    }
}

pub open spec fn env_name(label: Seq<char>) -> Seq<char> {
    Seq::new(label.len(), |i: int| env_char(label[i]))
}

/// A label in upper case, with `_` for everything but letters and digits.
pub fn env_key(label: &str) -> (r: String)
    ensures
        r@ == env_name(label@),
{
    let mut out: String = String::new();
    for c in it: label.chars()
        invariant
            it.seq() == label@,
            out@ == env_name(label@).take(it.index() as int),
    {
        let x: char = if text::char_is_alnum(c) { text::char_upper(c) } else { '_' };
        let ghost k = it.index() as int;
        out.push(x);
        assert(env_name(label@).take(k + 1) =~= env_name(label@).take(k).push(x));
    }
    assert(env_name(label@).take(label@.len() as int) =~= env_name(label@));
    out
}

pub open spec fn label_char(c: char) -> bool {
    text::is_alnum(c) || c == '-' || c == '_'
}

pub open spec fn is_label(s: Seq<char>) -> bool {
    s.len() > 0 && forall|i: int| 0 <= i < s.len() ==> label_char(#[trigger] s[i])
}

fn check_label(s: &str) -> (r: bool)
    ensures
        r == is_label(s@),
{
    for c in it: s.chars()
        invariant
            it.seq() == s@,
            forall|j: int| 0 <= j < it.index() ==> label_char(#[trigger] s@[j]),
    {
        if !(text::char_is_alnum(c) || c == '-' || c == '_') {
            return false;
        }
    }
    !s.is_empty()
}

/// What is wrong with `LABEL:GUESTPORT`.
#[derive(Clone, Copy, PartialEq, Eq, Structural, Debug)]
pub enum LabelFault {
    Form,
    Guest,
    Range,
    Label,
}

/// The meaning of `LABEL:GUESTPORT`.
pub open spec fn label_spec(s: Seq<char>) -> Result<(Seq<char>, u16), LabelFault> {
    match text::split_at_first(s, ':') {
        None => Err(LabelFault::Form),
        Some((label, g)) => match text::parsed_u16(g) {
            None => Err(LabelFault::Guest),
            Some(guest) => if guest == 0 {
                Err(LabelFault::Range)
            } else if !is_label(label) {
                Err(LabelFault::Label)
            } else {
                Ok((label, guest))
            },
        },
    }
}

pub open spec fn before_colon(s: Seq<char>) -> Seq<char> {
    match text::split_at_first(s, ':') {
        Some((label, _)) => label,
        None => s,
    }
}

pub open spec fn label_fault_text(f: LabelFault, s: Seq<char>) -> Seq<char> {
    match f {
        LabelFault::Form => "spec must be LABEL:GUESTPORT (e.g. api:3000)"@,
        LabelFault::Guest => "bad guest port in "@ + s,
        LabelFault::Range => "guest port must be between 1 and 65535"@,
        LabelFault::Label => "label must be alphanumeric/-/_ : "@ + before_colon(s),
    }
}

impl LabelFault {
    /// The error message for the given argument.
    pub fn message(&self, s: &str) -> (r: String)
        ensures
            r@ == label_fault_text(*self, s@),
    {
        match self {
            LabelFault::Form => "spec must be LABEL:GUESTPORT (e.g. api:3000)".to_owned(),
            LabelFault::Guest => "bad guest port in ".to_owned().concat(s),
            LabelFault::Range => "guest port must be between 1 and 65535".to_owned(),
            LabelFault::Label => {
                let label: &str = match text::split_once(s, ':') {
                    Some((label, _)) => label,
                    None => s,
                };
                "label must be alphanumeric/-/_ : ".to_owned().concat(label)
            },
        }
    }
}

/// A label of letters, digits, `-` and `_` with a guest port behind a colon is read as both; any
/// other label is refused, and so are the port 0 and a text without a colon.
pub proof fn lemma_label_spec_reads_back(label: Seq<char>, guest: u16)
    requires
        !label.contains(':'),
    ensures
        guest > 0 && is_label(label) ==> label_spec(label + ":"@ + text::dec(guest as nat)) == Ok::<
            (Seq<char>, u16),
            LabelFault,
        >((label, guest)),
        guest > 0 && !is_label(label) ==> label_spec(label + ":"@ + text::dec(guest as nat)) == Err::<
            (Seq<char>, u16),
            LabelFault,
        >(LabelFault::Label),
        label_spec(label + ":"@ + text::dec(0)) == Err::<(Seq<char>, u16), LabelFault>(
            LabelFault::Range,
        ),
        label_spec(label) == Err::<(Seq<char>, u16), LabelFault>(LabelFault::Form),
        is_label(label) <==> label.len() > 0 && forall|i: int|
            0 <= i < label.len() ==> ('a' <= #[trigger] label[i] <= 'z' || 'A' <= label[i] <= 'Z'
                || '0' <= label[i] <= '9' || label[i] == '-' || label[i] == '_'),
{
    reveal_strlit(":");
    let d = text::dec(guest as nat);
    text::lemma_parse_dec(guest as nat, 65535);
    text::lemma_parse_dec(0, 65535);
    text::lemma_split_at_first(label, ':', d);
    text::lemma_split_at_first(label, ':', text::dec(0));
    assert(label.push(':') + d =~= label + ":"@ + d);
    assert(label.push(':') + text::dec(0) =~= label + ":"@ + text::dec(0));
    text::lemma_find(label, ':');
    if is_label(label) {
        assert forall|i: int| 0 <= i < label.len() implies ('a' <= #[trigger] label[i] <= 'z' || 'A'
            <= label[i] <= 'Z' || '0' <= label[i] <= '9' || label[i] == '-' || label[i] == '_') by {
            assert(label_char(label[i]));
        }
    }
}

pub fn parse_spec(s: &str) -> (r: Result<(String, u16), LabelFault>)
    ensures
        match label_spec(s@) {
            Ok((label, guest)) => r matches Ok(x) && x.0@ == label && x.1 == guest,
            Err(f) => r matches Err(e) && e == f,
        },
{
    match text::split_once(s, ':') {
        None => Err(LabelFault::Form),
        Some((label, g)) => match text::parse_u16(g) {
            None => Err(LabelFault::Guest),
            Some(guest) => if guest == 0 {
                Err(LabelFault::Range)
            } else if !check_label(label) {
                Err(LabelFault::Label)
            } else {
                Ok((label.to_owned(), guest))
            },
        },
    }
}

// ---------------------------------------------------------------------------
// Mappings of a VM
// ---------------------------------------------------------------------------

/// A mapping that was added to a VM's record.
pub struct Added {
    pub meta: InstanceMeta,
    pub host: u16,
    pub guest: u16,
    /// The host port whose forward goes to another guest port and has to be stopped.
    pub stale: Option<u16>,
    /// Whether the host port was allocated just now.
    pub fresh: bool,
    /// The line that tells the user about it.
    pub line: String,
}

/// The host port for a label: the one it has, or the first free one.
pub open spec fn host_for(m: MetaView, label: Seq<char>, taken: Seq<u16>) -> Option<u16> {
    match table::lookup(m.ports, label) {
        Some(p) => Some(p.host),
        None => first_free(taken, m.ports, PORT_LO as int),
    }
}

/// The record with a mapping.
pub open spec fn with_port(m: MetaView, label: Seq<char>, p: PortMap) -> MetaView {
    MetaView { ports: table::inserted(m.ports, label, p), ..m }
}

pub open spec fn added_line(label: Seq<char>, host: u16, guest: u16) -> Seq<char> {
    label + ": 127.0.0.1:"@ + text::dec(host as nat) + " -> guest "@ + text::dec(guest as nat)
        + " (WTX_PORT_"@ + env_name(label) + "="@ + text::dec(host as nat) + ")"@
}

/// Add or update a named mapping. A label keeps its host port when its guest port changes, and
/// then the forward to the old guest port is stale.
pub fn add(meta: &InstanceMeta, s: &str, taken: &Vec<u16>) -> (r: Result<Added, String>)
    ensures
        match label_spec(s@) {
            Err(f) => r matches Err(e) && e@ == label_fault_text(f, s@),
            Ok((label, guest)) => match host_for(meta@, label, taken@) {
                None => r matches Err(e) && e@ == exhausted(),
                Some(host) => r matches Ok(x) && {
                    &&& x.meta@ == with_port(meta@, label, PortMap { host, guest })
                    &&& lima::well_formed(meta@) ==> lima::well_formed(x.meta@)
                    &&& x.host == host
                    &&& x.guest == guest
                    &&& x.fresh == (table::lookup(meta@.ports, label) is None)
                    &&& x.stale == match table::lookup(meta@.ports, label) {
                        Some(p) => if p.guest == guest {
                            None
                        } else {
                            Some(p.host)
                        },
                        None => None,
                    }
                    &&& x.line@ == added_line(label, host, guest)
                },
            },
        },
{
    let (label, guest) = match parse_spec(s) {
        Ok(x) => x,
        Err(f) => {
            return Err(f.message(s));
        },
    };
    let mut stale: Option<u16> = None;
    let mut fresh: bool = false;
    let host: u16 = match table::get(&meta.ports, label.as_str()) {
        Some(p) => {
            if p.guest != guest {
                stale = Some(p.host);
            }
            p.host
        },
        None => {
            fresh = true;
            match alloc_host_port(&meta.ports, taken) {
                Some(h) => h,
                None => {
                    return Err("no free host port in 42000-42999".to_owned());
                },
            }
        },
    };
    proof {
        if lima::well_formed(meta@) {
            table::lemma_sorted(meta@.ports, label@, PortMap { host, guest });
        }
    }
    let mut changed: InstanceMeta = meta.clone();
    let mut ports: Vec<(String, PortMap)> = lima::copy_ports(&meta.ports);
    table::insert(&mut ports, label.clone(), PortMap { host, guest });
    changed.ports = ports;
    let h: String = text::dec_of(host as u64);
    let g: String = text::dec_of(guest as u64);
    let key: String = env_key(label.as_str());
    let line: String = label.concat(": 127.0.0.1:").concat(h.as_str()).concat(" -> guest ").concat(
        g.as_str(),
    ).concat(" (WTX_PORT_").concat(key.as_str()).concat("=").concat(h.as_str()).concat(")");
    Ok(Added { meta: changed, host, guest, stale, fresh, line })
}

/// A label that is new gets the lowest port of the range that nobody has, and none only if somebody
/// has them all; a label that is known keeps its own.
pub proof fn lemma_new_label_gets_the_lowest_port(m: MetaView, label: Seq<char>, taken: Seq<u16>)
    ensures
        table::lookup(m.ports, label) matches Some(p) ==> host_for(m, label, taken) == Some(p.host),
        table::lookup(m.ports, label) is None ==> {
            &&& host_for(m, label, taken) matches Some(p) ==> {
                &&& 42000 <= p <= 42999
                &&& !taken.contains(p)
                &&& forall|i: int| 0 <= i < m.ports.len() ==> (#[trigger] m.ports[i]).1.host != p
                &&& forall|q: u16| 42000 <= q < p ==> taken.contains(q) || #[trigger] maps(m.ports, q)
            }
            &&& host_for(m, label, taken) is None ==> forall|q: u16|
                42000 <= q <= 42999 ==> taken.contains(q) || #[trigger] maps(m.ports, q)
        },
{
    lemma_alloc(taken, m.ports, 42000);
    if table::lookup(m.ports, label) is None {
        match host_for(m, label, taken) {
            Some(p) => {
                assert(!maps(m.ports, p));
            },
            None => {},
        }
    }
}

/// What is told of a new mapping are its label, its own ports and the variable that holds its port.
pub proof fn lemma_added_line(label: Seq<char>, host: u16, guest: u16)
    ensures
        added_line(label, host, guest) == label + ": 127.0.0.1:"@ + text::dec(host as nat)
            + " -> guest "@ + text::dec(guest as nat) + " (WTX_PORT_"@ + env_name(label) + "="@
            + text::dec(host as nat) + ")"@,
{
}

/// A label keeps its host port for good: once added, every further addition of the label yields
/// the same port, whatever guest port it names and whatever ports are taken by then, and the
/// mappings of the other labels stay as they are.
pub proof fn lemma_label_keeps_its_port(
    m: MetaView,
    label: Seq<char>,
    p: PortMap,
    other: Seq<char>,
    taken: Seq<u16>,
)
    ensures
        host_for(with_port(m, label, p), label, taken) == Some(p.host),
        other != label ==> table::lookup(with_port(m, label, p).ports, other) == table::lookup(
            m.ports,
            other,
        ),
{
    table::lemma_lookup_inserted(m.ports, label, p, other);
}

/// A record keeps its mappings in the order of their labels, each label once, whatever is added to
/// them or taken away, and a clone's inherited mappings come in that order.
pub proof fn lemma_mappings_stay_sorted(
    m: MetaView,
    label: Seq<char>,
    p: PortMap,
    src: Seq<(Seq<char>, PortMap)>,
    taken: Seq<u16>,
)
    requires
        lima::well_formed(m),
    ensures
        lima::well_formed(with_port(m, label, p)),
        lima::well_formed(MetaView { ports: table::removed(m.ports, label), ..m }),
        lima::well_formed(MetaView { ports: inherited(src, taken).0, ..m }),
{
    table::lemma_sorted(m.ports, label, p);
    lemma_inherited_is_sorted(src, taken);
}

/// Adding the same mapping again changes nothing.
pub proof fn lemma_add_is_idempotent(m: MetaView, label: Seq<char>, p: PortMap)
    ensures
        with_port(with_port(m, label, p), label, p) == with_port(m, label, p),
{
    lemma_inserted_twice(m.ports, label, p);
}

proof fn lemma_inserted_twice(t: Seq<(Seq<char>, PortMap)>, k: Seq<char>, v: PortMap)
    ensures
        table::inserted(table::inserted(t, k, v), k, v) == table::inserted(t, k, v),
    decreases t.len(),
{
    let r = table::inserted(t, k, v);
    if t.len() > 0 && t[0].0 != k && !text::precedes(k, t[0].0) {
        lemma_inserted_twice(t.skip(1), k, v);
        assert(r.skip(1) =~= table::inserted(t.skip(1), k, v));
        assert(table::inserted(r, k, v) =~= r);
    } else {
        assert(r[0] == (k, v));
        assert(seq![(k, v)] + r.skip(1) =~= r);
    }
}

// ---------------------------------------------------------------------------
// Environment
// ---------------------------------------------------------------------------

pub open spec fn export(key: Seq<char>, value: Seq<char>) -> Seq<char> {
    "export "@ + key + "="@ + value
}

/// The lines that export the ports of the table.
pub open spec fn port_exports(ports: Seq<(Seq<char>, PortMap)>) -> Seq<Seq<char>> {
    Seq::new(
        ports.len(),
        |i: int|
            export("WTX_PORT_"@ + env_name(ports[i].0), text::dec(ports[i].1.host as nat)),
    )
}

/// The shell lines of `wtx env`.
pub open spec fn env_text(name: Seq<char>, m: MetaView) -> Seq<Seq<char>> {
    seq![
        export("WTX_VM_NAME"@, util::quoted(name)),
        export("WTX_WORKDIR"@, util::quoted(m.workdir)),
    ] + (if m.sim_udid.len() == 0 {
        Seq::empty()
    } else {
        seq![
            export("WTX_SIM_UDID"@, util::quoted(m.sim_udid)),
            export("WTX_SIM_DEVICETYPE"@, util::quoted(m.sim_devicetype)),
        ]
    }) + port_exports(m.ports)
}

fn export_line(key: &str, value: &str) -> (r: String)
    ensures
        r@ == export(key@, value@),
{
    "export ".to_owned().concat(key).concat("=").concat(value)
}

/// The shell environment of a VM.
pub fn env(name: &str, meta: &InstanceMeta) -> (r: Vec<String>)
    ensures
        text::texts(r@) == env_text(name@, meta@),
{
    let mut out: Vec<String> = Vec::new();
    assert(text::texts(out@) =~= Seq::empty());
    let q: String = util::shq(name);
    text::push_string(&mut out, export_line("WTX_VM_NAME", q.as_str()));
    let q: String = util::shq(meta.workdir.as_str());
    text::push_string(&mut out, export_line("WTX_WORKDIR", q.as_str()));
    if !meta.sim_udid.as_str().is_empty() {
        let q: String = util::shq(meta.sim_udid.as_str());
        text::push_string(&mut out, export_line("WTX_SIM_UDID", q.as_str()));
        let q: String = util::shq(meta.sim_devicetype.as_str());
        text::push_string(&mut out, export_line("WTX_SIM_DEVICETYPE", q.as_str()));
    }
    let ghost head = text::texts(out@);
    let ghost e = port_exports(meta@.ports);
    let mut i: usize = 0;
    assert(head + e.take(0) =~= head);
    while i < meta.ports.len()
        invariant
            i <= meta.ports@.len(),
            e == port_exports(meta@.ports),
            text::texts(out@) == head + e.take(i as int),
        decreases meta.ports@.len() - i,
    {
        let k: String = env_key(meta.ports[i].0.as_str());
        let key: String = "WTX_PORT_".to_owned().concat(k.as_str());
        let h: String = text::dec_of(meta.ports[i].1.host as u64);
        text::push_string(&mut out, export_line(key.as_str(), h.as_str()));
        assert(e.take(i + 1) =~= e.take(i as int).push(e[i as int]));
        assert(text::texts(out@) =~= head + e.take(i + 1));
        i += 1;
    }
    assert(e.take(i as int) =~= e);
    assert(text::texts(out@) =~= env_text(name@, meta@));
    out
}

/// The environment of a VM holds, in this order, its name, its directory, its simulator if it has
/// one, and for every mapping of the record its host port in decimal under the label's key, and
/// nothing else. The key is the label letter by letter: letters in upper case, digits as they are,
/// and `_` for anything else.
pub proof fn lemma_every_port_is_exported(name: Seq<char>, m: MetaView)
    ensures
        ({
            let lines = env_text(name, m);
            let n: int = if m.sim_udid.len() > 0 {
                4
            } else {
                2
            };
            &&& lines.len() == n + m.ports.len()
            &&& lines[0] == "export WTX_VM_NAME="@ + util::quoted(name)
            &&& lines[1] == "export WTX_WORKDIR="@ + util::quoted(m.workdir)
            &&& n == 4 ==> lines[2] == "export WTX_SIM_UDID="@ + util::quoted(m.sim_udid)
            &&& n == 4 ==> lines[3] == "export WTX_SIM_DEVICETYPE="@ + util::quoted(
                m.sim_devicetype,
            )
            &&& forall|i: int|
                0 <= i < m.ports.len() ==> lines[n + i] == "export WTX_PORT_"@ + env_name(
                    (#[trigger] m.ports[i]).0,
                ) + "="@ + text::dec(m.ports[i].1.host as nat)
        }),
        forall|s: Seq<char>, i: int|
            0 <= i < s.len() ==> env_name(s).len() == s.len() && ({
                let c = #[trigger] env_name(s)[i];
                &&& 'a' <= s[i] <= 'z' ==> c as u32 == s[i] as u32 - 32
                &&& 'A' <= s[i] <= 'Z' || '0' <= s[i] <= '9' ==> c == s[i]
                &&& !('a' <= s[i] <= 'z' || 'A' <= s[i] <= 'Z' || '0' <= s[i] <= '9') ==> c == '_'
            }),
{
    reveal_strlit("export ");
    reveal_strlit("=");
    reveal_strlit("WTX_VM_NAME");
    reveal_strlit("WTX_WORKDIR");
    reveal_strlit("WTX_SIM_UDID");
    reveal_strlit("WTX_SIM_DEVICETYPE");
    reveal_strlit("WTX_PORT_");
    reveal_strlit("export WTX_VM_NAME=");
    reveal_strlit("export WTX_WORKDIR=");
    reveal_strlit("export WTX_SIM_UDID=");
    reveal_strlit("export WTX_SIM_DEVICETYPE=");
    reveal_strlit("export WTX_PORT_");
    assert("export "@ + "WTX_VM_NAME"@ + "="@ =~= "export WTX_VM_NAME="@);
    assert("export "@ + "WTX_WORKDIR"@ + "="@ =~= "export WTX_WORKDIR="@);
    assert("export "@ + "WTX_SIM_UDID"@ + "="@ =~= "export WTX_SIM_UDID="@);
    assert("export "@ + "WTX_SIM_DEVICETYPE"@ + "="@ =~= "export WTX_SIM_DEVICETYPE="@);
    let lines = env_text(name, m);
    let n: int = if m.sim_udid.len() > 0 {
        4
    } else {
        2
    };
    assert forall|i: int| 0 <= i < m.ports.len() implies lines[n + i] == "export WTX_PORT_"@
        + env_name((#[trigger] m.ports[i]).0) + "="@ + text::dec(m.ports[i].1.host as nat) by {
        assert(lines[n + i] == port_exports(m.ports)[i]);
        assert("export "@ + ("WTX_PORT_"@ + env_name(m.ports[i].0)) =~= "export WTX_PORT_"@
            + env_name(m.ports[i].0));
    }
}

/// One mapping as JSON.
pub open spec fn port_json(p: PortMap) -> JsonView {
    JsonView::Obj(
        seq![
            ("guest"@, JsonView::Num(p.guest as int)),
            ("host"@, JsonView::Num(p.host as int)),
        ],
    )
}

pub open spec fn ports_json(ports: Seq<(Seq<char>, PortMap)>) -> JsonView {
    JsonView::Obj(Seq::new(ports.len(), |i: int| (ports[i].0, port_json(ports[i].1))))
}

/// The document of `wtx env --json`.
pub open spec fn env_document(name: Seq<char>, m: MetaView) -> JsonView {
    JsonView::Obj(
        seq![
            ("ports"@, ports_json(m.ports)),
            ("sim_devicetype"@, JsonView::Str(m.sim_devicetype)),
            ("sim_udid"@, JsonView::Str(m.sim_udid)),
            ("vm"@, JsonView::Str(name)),
            ("workdir"@, JsonView::Str(m.workdir)),
        ],
    )
}

/// The document of a VM's environment holds every mapping of the record under its label, in the
/// record's order, with both of its ports.
pub proof fn lemma_every_port_is_in_the_document(name: Seq<char>, m: MetaView, i: int)
    ensures
        ({
            let d = env_document(name, m)->Obj_0;
            &&& d.len() == 5
            &&& d[0].0 == "ports"@
            &&& d[1] == ("sim_devicetype"@, JsonView::Str(m.sim_devicetype))
            &&& d[2] == ("sim_udid"@, JsonView::Str(m.sim_udid))
            &&& d[3] == ("vm"@, JsonView::Str(name))
            &&& d[4] == ("workdir"@, JsonView::Str(m.workdir))
            &&& d[0].1 is Obj
            &&& d[0].1->Obj_0.len() == m.ports.len()
            &&& 0 <= i < m.ports.len() ==> {
                let p = d[0].1->Obj_0[i];
                &&& p.0 == m.ports[i].0
                &&& p.1 is Obj && p.1->Obj_0.len() == 2
                &&& p.1->Obj_0[0] == ("guest"@, JsonView::Num(m.ports[i].1.guest as int))
                &&& p.1->Obj_0[1] == ("host"@, JsonView::Num(m.ports[i].1.host as int))
            }
        }),
{
}

pub fn env_json(name: &str, meta: &InstanceMeta) -> (r: Json)
    ensures
        r@ == env_document(name@, meta@),
{
    let mut ports: Vec<(String, Json)> = json::no_members();
    let ghost t = meta@.ports;
    let ghost all = ports_json(t)->Obj_0;
    let mut i: usize = 0;
    assert(all.take(0) =~= Seq::empty());
    while i < meta.ports.len()
        invariant
            i <= meta.ports@.len(),
            t == meta@.ports,
            all == ports_json(t)->Obj_0,
            json::members(ports@) == all.take(i as int),
        decreases meta.ports@.len() - i,
    {
        let p: PortMap = meta.ports[i].1;
        let mut m: Vec<(String, Json)> = json::no_members();
        json::member(&mut m, "guest", Json::Num(p.guest as i64));
        json::member(&mut m, "host", Json::Num(p.host as i64));
        assert(json::members(m@) =~= port_json(p)->Obj_0);
        json::member(&mut ports, meta.ports[i].0.as_str(), json::object(m));
        assert(all.take(i + 1) =~= all.take(i as int).push(all[i as int]));
        i += 1;
    }
    assert(all.take(i as int) =~= all);
    let mut m: Vec<(String, Json)> = json::no_members();
    json::member(&mut m, "ports", json::object(ports));
    json::member(&mut m, "sim_devicetype", json::string(meta.sim_devicetype.as_str()));
    json::member(&mut m, "sim_udid", json::string(meta.sim_udid.as_str()));
    json::member(&mut m, "vm", json::string(name));
    json::member(&mut m, "workdir", json::string(meta.workdir.as_str()));
    assert(json::members(m@) =~= env_document(name@, meta@)->Obj_0);
    json::object(m)
}

/// The warning for a forward that could not be armed.
pub fn not_armed(label: &str, error: &str) -> (r: String)
    ensures
        r@ == "wtx: warning: forward "@ + label@ + " not armed: "@ + error@,
{
    "wtx: warning: forward ".to_owned().concat(label).concat(" not armed: ").concat(error)
}

} // verus!
