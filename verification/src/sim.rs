//! Simulators that belong to worktrees.
//!
//! wtx keeps a device alive as long as its VM and hands out its identifier. Everything else is
//! done with other tools.
use vstd::prelude::*;

use crate::json::{self, Json, JsonView};
use crate::lima::{self, InstanceMeta, MetaView, PortMap};
use crate::plan::{self, OnFail, Step, StepView, Verb};
use crate::port;
use crate::table;
use crate::text;
use crate::util;

verus! {

/// The steps that shut a device down and delete it, as far as that works.
pub open spec fn deleting(udid: Seq<char>, quiet: bool) -> Seq<StepView> {
    if udid.len() == 0 {
        Seq::empty()
    } else {
        let step = plan::noted(
            Verb::Xcrun,
            seq!["simctl"@, "delete"@, udid],
            OnFail::Warn,
            "wtx: could not delete simulator "@ + udid,
        );
        seq![
            plan::tries(Verb::Xcrun, seq!["simctl"@, "shutdown"@, udid]),
            if quiet {
                step
            } else {
                plan::announced(step, "deleted simulator "@ + udid)
            },
        ]
    }
}

/// A device that is recorded is shut down first and then deleted, and neither keeps a removal from
/// going on; without one nothing is done.
pub proof fn lemma_device_is_deleted(udid: Seq<char>, quiet: bool)
    ensures
        udid.len() == 0 ==> deleting(udid, quiet).len() == 0,
        udid.len() > 0 ==> {
            let s = deleting(udid, quiet);
            &&& s.len() == 2
            &&& s[0].verb == Verb::Xcrun && s[0].args == seq!["simctl"@, "shutdown"@, udid]
            &&& s[0].on_fail == OnFail::Ignore
            &&& s[1].verb == Verb::Xcrun && s[1].args == seq!["simctl"@, "delete"@, udid]
            &&& s[1].on_fail == OnFail::Warn
            &&& quiet ==> s[1].done.len() == 0
        },
{
}

/// Delete a device, also one that is booted; `quiet` keeps standard output clean.
pub fn delete_device(udid: &str, quiet: bool) -> (r: Vec<Step>)
    ensures
        plan::steps(r@) == deleting(udid@, quiet),
{
    if udid.is_empty() {
        return plan::nothing();
    }
    let mut p: Vec<Step> = plan::nothing();
    plan::push(
        &mut p,
        plan::attempt(Verb::Xcrun, plan::args3("simctl", "shutdown", udid)),
    );
    let note: String = "wtx: could not delete simulator ".to_owned().concat(udid);
    let step: Step = plan::with_note(
        Verb::Xcrun,
        plan::args3("simctl", "delete", udid),
        OnFail::Warn,
        note.as_str(),
    );
    if quiet {
        plan::push(&mut p, step);
    } else {
        let line: String = "deleted simulator ".to_owned().concat(udid);
        plan::push(&mut p, plan::announce(step, line.as_str()));
    }
    assert(plan::steps(p@) =~= deleting(udid@, quiet));
    p
}

/// The error of a failed `xcrun`.
pub fn xcrun_error(args: &Vec<String>, err: &str) -> (r: String)
    ensures
        r@ == "xcrun "@ + text::joined(text::texts(args@), " "@) + " failed: "@ + text::stripped(
            err@,
        ),
{
    let all: String = text::join(args, " ");
    "xcrun ".to_owned().concat(all.as_str()).concat(" failed: ").concat(text::trim(err))
}

// ---------------------------------------------------------------------------
// Runtimes and device types
// ---------------------------------------------------------------------------

pub open spec fn text_or(j: Option<JsonView>, otherwise: Seq<char>) -> Seq<char> {
    match json::text_of(j) {
        Some(s) => s,
        None => otherwise,
    }
}

/// The number at a position of a dotted version; zero where there is none.
pub open spec fn version_part(version: Seq<char>, i: int) -> nat {
    let parts = text::pieces(version, '.');
    if 0 <= i < parts.len() {
        match text::parsed(parts[i], u64::MAX as nat) {
            Some(n) => n,
            None => 0,
        }
    } else {
        0
    }
}

/// Whether a dotted version comes before another, by its first three numbers.
pub open spec fn version_before(a: Seq<char>, b: Seq<char>) -> bool {
    let (a0, a1, a2) = (version_part(a, 0), version_part(a, 1), version_part(a, 2));
    let (b0, b1, b2) = (version_part(b, 0), version_part(b, 1), version_part(b, 2));
    a0 < b0 || (a0 == b0 && (a1 < b1 || (a1 == b1 && a2 < b2)))
}

fn version_number(parts: &Vec<String>, i: usize) -> (r: u64)
    ensures
        r == (if i < parts@.len() {
            match text::parsed(text::texts(parts@)[i as int], u64::MAX as nat) {
                Some(n) => n,
                None => 0,
            }
        } else {
            0
        }),
{
    if i < parts.len() {
        match text::parse_number(parts[i].as_str(), u64::MAX) {
            Some(n) => n,
            None => 0,
        }
    } else {
        0
    }
}

fn is_version_before(a: &str, b: &str) -> (r: bool)
    ensures
        r == version_before(a@, b@),
{
    let x: Vec<String> = text::split(a, '.');
    let y: Vec<String> = text::split(b, '.');
    let (a0, a1, a2) = (version_number(&x, 0), version_number(&x, 1), version_number(&x, 2));
    let (b0, b1, b2) = (version_number(&y, 0), version_number(&y, 1), version_number(&y, 2));
    assert(text::texts(x@).len() == x@.len());
    assert(text::texts(y@).len() == y@.len());
    a0 < b0 || (a0 == b0 && (a1 < b1 || (a1 == b1 && a2 < b2)))
}

/// Whether a runtime is an available one of iOS.
pub open spec fn ios_runtime(r: JsonView) -> bool {
    json::flag_of(json::field(r, "isAvailable"@)) == Some(true) && text::has_substring(
        text_or(json::field(r, "identifier"@), ""@),
        "SimRuntime.iOS"@,
    )
}

pub open spec fn runtime_version(r: JsonView) -> Seq<char> {
    text_or(json::field(r, "version"@), "0"@)
}

/// The position of the iOS runtime with the highest version; the last of them if several tie.
pub open spec fn newest(runtimes: Seq<JsonView>) -> Option<int>
    decreases runtimes.len(),
{
    if runtimes.len() == 0 {
        None
    } else {
        let before = newest(runtimes.drop_last());
        let last = runtimes.last();
        if !ios_runtime(last) {
            before
        } else {
            match before {
                Some(i) => if version_before(runtime_version(last), runtime_version(runtimes[i])) {
                    before
                } else {
                    Some(runtimes.len() - 1)
                },
                None => Some(runtimes.len() - 1),
            }
        }
    }
}

/// The runtime for new devices is an available one of iOS, and no such runtime is newer; there is
/// none only if no such runtime is installed.
pub proof fn lemma_newest_runtime(runtimes: Seq<JsonView>, j: int)
    requires
        0 <= j < runtimes.len(),
        ios_runtime(runtimes[j]),
    ensures
        newest(runtimes) matches Some(i) && 0 <= i < runtimes.len() && ios_runtime(runtimes[i])
            && !version_before(runtime_version(runtimes[i]), runtime_version(runtimes[j])),
    decreases runtimes.len(),
{
    let f = runtimes.drop_last();
    if j < f.len() {
        assert(f[j] == runtimes[j]);
        lemma_newest_runtime(f, j);
        let i = newest(f)->0;
        assert(f[i] == runtimes[i]);
    } else {
        lemma_newest_is_ios(f);
        match newest(f) {
            Some(i) => {
                assert(f[i] == runtimes[i]);
            },
            None => {},
        }
    }
}

proof fn lemma_newest_is_ios(runtimes: Seq<JsonView>)
    ensures
        newest(runtimes) matches Some(i) ==> 0 <= i < runtimes.len() && ios_runtime(runtimes[i]),
    decreases runtimes.len(),
{
    if runtimes.len() > 0 {
        let f = runtimes.drop_last();
        lemma_newest_is_ios(f);
        match newest(f) {
            Some(i) => {
                assert(f[i] == runtimes[i]);
            },
            None => {},
        }
    }
}

/// A number of a version; zero where there is none.
pub open spec fn number_at(v: Seq<nat>, i: int) -> nat {
    if 0 <= i < v.len() {
        v[i]
    } else {
        0
    }
}

/// Numbers in decimal with a dot between each two.
pub open spec fn dotted(v: Seq<nat>) -> Seq<char> {
    text::joined(Seq::new(v.len(), |i: int| text::dec(v[i])), "."@)
}

/// Whether a list holds the numbers of a version.
pub open spec fn version_numbers(v: Seq<nat>) -> bool {
    v.len() > 0 && forall|i: int| 0 <= i < v.len() ==> #[trigger] v[i] <= u64::MAX
}

proof fn lemma_version_part(v: Seq<nat>, i: int)
    requires
        version_numbers(v),
        0 <= i,
    ensures
        version_part(dotted(v), i) == number_at(v, i),
{
    let parts = Seq::new(v.len(), |k: int| text::dec(v[k]));
    assert forall|k: int| 0 <= k < parts.len() implies !(#[trigger] parts[k]).contains('.') by {
        text::lemma_dec(v[k]);
        if parts[k].contains('.') {
            let m = choose|m: int| 0 <= m < parts[k].len() && parts[k][m] == '.';
            assert(text::is_digit(parts[k][m]));
        }
    }
    reveal_strlit(".");
    assert("."@ =~= seq!['.']);
    util::lemma_pieces_of_joined(parts, '.');
    if i < v.len() {
        text::lemma_parse_dec(v[i], u64::MAX as nat);
    }
}

/// Versions go by their first three numbers, the first before the second before the third, and
/// each as a number: missing ones count as zero.
pub proof fn lemma_versions_go_by_their_numbers(a: Seq<nat>, b: Seq<nat>)
    requires
        version_numbers(a),
        version_numbers(b),
    ensures
        version_before(dotted(a), dotted(b)) <==> {
            ||| number_at(a, 0) < number_at(b, 0)
            ||| number_at(a, 0) == number_at(b, 0) && number_at(a, 1) < number_at(b, 1)
            ||| number_at(a, 0) == number_at(b, 0) && number_at(a, 1) == number_at(b, 1)
                && number_at(a, 2) < number_at(b, 2)
        },
{
    lemma_version_part(a, 0);
    lemma_version_part(a, 1);
    lemma_version_part(a, 2);
    lemma_version_part(b, 0);
    lemma_version_part(b, 1);
    lemma_version_part(b, 2);
}

/// No available iOS runtime has a greater version number, one after the other, than the runtime for
/// new devices, and of those with the same numbers it is the last.
pub proof fn lemma_newest_runtime_by_numbers(
    doc: JsonView,
    i: int,
    a: Seq<nat>,
    j: int,
    b: Seq<nat>,
)
    requires
        0 <= i < runtimes_in(doc).len(),
        newest(runtimes_in(doc)) == Some(i),
        runtime_version(runtimes_in(doc)[i]) == dotted(a),
        version_numbers(a),
        0 <= j < runtimes_in(doc).len(),
        json::field(runtimes_in(doc)[j], "isAvailable"@) == Some(JsonView::Bool(true)),
        json::field(runtimes_in(doc)[j], "identifier"@) matches Some(JsonView::Str(id))
            && text::has_substring(id, "SimRuntime.iOS"@),
        json::field(runtimes_in(doc)[j], "version"@) == Some(JsonView::Str(dotted(b))),
        version_numbers(b),
    ensures
        newest_runtime(doc) == Some(runtimes_in(doc)[i]),
        ({
            ||| number_at(a, 0) > number_at(b, 0)
            ||| number_at(a, 0) == number_at(b, 0) && number_at(a, 1) > number_at(b, 1)
            ||| number_at(a, 0) == number_at(b, 0) && number_at(a, 1) == number_at(b, 1)
                && number_at(a, 2) > number_at(b, 2)
            ||| number_at(a, 0) == number_at(b, 0) && number_at(a, 1) == number_at(b, 1)
                && number_at(a, 2) == number_at(b, 2) && j <= i
        }),
{
    let t = runtimes_in(doc);
    assert(ios_runtime(t[j]));
    assert(runtime_version(t[j]) == dotted(b));
    lemma_newest_runtime(t, j);
    lemma_versions_go_by_their_numbers(a, b);
    lemma_versions_go_by_their_numbers(b, a);
    lemma_newest_is_last(t, j);
}

proof fn lemma_newest_is_last(runtimes: Seq<JsonView>, j: int)
    requires
        0 <= j < runtimes.len(),
        ios_runtime(runtimes[j]),
    ensures
        newest(runtimes) matches Some(i) && (i < j ==> version_before(
            runtime_version(runtimes[j]),
            runtime_version(runtimes[i]),
        )),
    decreases runtimes.len(),
{
    let f = runtimes.drop_last();
    lemma_newest_runtime(runtimes, j);
    lemma_newest_is_ios(f);
    if j < f.len() {
        assert(f[j] == runtimes[j]);
        lemma_newest_is_last(f, j);
        let i = newest(f)->0;
        assert(f[i] == runtimes[i]);
    } else {
        match newest(f) {
            Some(i) => {
                assert(f[i] == runtimes[i]);
            },
            None => {},
        }
    }
}

fn json_text_or<'a>(j: Option<&'a Json>, otherwise: &'a str) -> (r: &'a str)
    ensures
        r@ == text_or(json::opt_json(j), otherwise@),
{
    match json::as_text(j) {
        Some(s) => s,
        None => otherwise,
    }
}

pub open spec fn runtimes_in(doc: JsonView) -> Seq<JsonView> {
    json::list_of(json::field(doc, "runtimes"@))
}

/// The runtime for new devices: the newest available iOS, from the list of runtimes.
pub open spec fn newest_runtime(doc: JsonView) -> Option<JsonView> {
    match newest(runtimes_in(doc)) {
        Some(i) => Some(runtimes_in(doc)[i]),
        None => None,
    }
}

pub fn newest_ios_runtime<'a>(doc: &'a Json) -> (r: Result<&'a Json, String>)
    ensures
        match newest_runtime(doc@) {
            Some(x) => r matches Ok(j) && j@ == x,
            None => r matches Err(e) && e@
                == "no iOS simulator runtime installed (install one via Xcode)"@,
        },
{
    let mut best: Option<usize> = None;
    let empty: String = text::empty();
    proof {
        reveal_strlit("");
    }
    assert(empty@ =~= ""@);
    match json::as_list(json::get(doc, "runtimes")) {
        Some(list) => {
            let ghost t = json::items(list@);
            let mut i: usize = 0;
            assert(t.take(0) =~= Seq::empty());
            while i < list.len()
                invariant
                    i <= list@.len(),
                    t == json::items(list@),
                    empty@ == ""@,
                    best is Some == newest(t.take(i as int)) is Some,
                    best matches Some(k) ==> k < i && newest(t.take(i as int)) == Some(k as int),
                decreases list@.len() - i,
            {
                let x: &Json = &list[i];
                assert(x@ == t[i as int]);
                assert(t.take(i + 1).drop_last() =~= t.take(i as int));
                assert(t.take(i + 1).last() == x@);
                let available: bool = match json::as_flag(json::get(x, "isAvailable")) {
                    Some(b) => b,
                    None => false,
                };
                if available && text::contains(
                    json_text_or(json::get(x, "identifier"), empty.as_str()),
                    "SimRuntime.iOS",
                ) {
                    match best {
                        Some(k) => {
                            assert(t.take(i as int)[k as int] == t[k as int]);
                            assert(t.take(i + 1)[k as int] == t[k as int]);
                            let a: &str = json_text_or(json::get(x, "version"), "0");
                            let b: &str = json_text_or(json::get(&list[k], "version"), "0");
                            if !is_version_before(a, b) {
                                best = Some(i);
                            }
                        },
                        None => {
                            best = Some(i);
                        },
                    }
                }
                i += 1;
            }
            assert(t.take(i as int) =~= t);
            match best {
                Some(k) => Ok(&list[k]),
                None => Err(
                    "no iOS simulator runtime installed (install one via Xcode)".to_owned(),
                ),
            }
        },
        None => Err("no iOS simulator runtime installed (install one via Xcode)".to_owned()),
    }
}

/// The lowest runtime that the catalog gives for a device type; zero if it gives none. A later
/// entry of the same type counts.
pub open spec fn min_runtime(catalog: Seq<JsonView>, id: Seq<char>) -> int
    decreases catalog.len(),
{
    if catalog.len() == 0 {
        0
    } else if json::text_of(json::field(catalog.last(), "identifier"@)) == Some(id) {
        match json::number_of(json::field(catalog.last(), "minRuntimeVersion"@)) {
            Some(n) => n,
            None => 0,
        }
    } else {
        min_runtime(catalog.drop_last(), id)
    }
}

/// The rank of a device type is the lowest runtime that the catalog's last entry of its identifier
/// gives, whatever else the catalog lists.
pub proof fn lemma_rank_is_the_catalogs(
    a: Seq<JsonView>,
    x: JsonView,
    b: Seq<JsonView>,
    id: Seq<char>,
    n: int,
)
    requires
        json::field(x, "identifier"@) == Some(JsonView::Str(id)),
        json::field(x, "minRuntimeVersion"@) == Some(JsonView::Num(n)),
        forall|i: int|
            0 <= i < b.len() ==> json::field(#[trigger] b[i], "identifier"@) != Some(
                JsonView::Str(id),
            ),
    ensures
        min_runtime(a.push(x) + b, id) == n,
    decreases b.len(),
{
    let all = a.push(x) + b;
    if b.len() > 0 {
        let f = b.drop_last();
        assert forall|i: int| 0 <= i < f.len() implies json::field(#[trigger] f[i], "identifier"@)
            != Some(JsonView::Str(id)) by {
            assert(f[i] == b[i]);
        }
        lemma_rank_is_the_catalogs(a, x, f, id, n);
        assert(all.drop_last() =~= a.push(x) + f);
        assert(all.last() == b[b.len() - 1]);
    } else {
        assert(all.last() == x);
    }
}

fn find_min_runtime(catalog: Option<&Vec<Json>>, id: &str) -> (r: i64)
    ensures
        r == match catalog {
            Some(v) => min_runtime(json::items(v@), id@),
            None => 0,
        },
{
    match catalog {
        None => 0,
        Some(v) => {
            let ghost t = json::items(v@);
            let mut i: usize = v.len();
            assert(t.take(i as int) =~= t);
            while i > 0
                invariant
                    i <= v@.len(),
                    t == json::items(v@),
                    catalog is Some,
                    t == json::items(catalog->0@),
                    min_runtime(t, id@) == min_runtime(t.take(i as int), id@),
                decreases i,
            {
                i -= 1;
                assert(t.take(i + 1).drop_last() =~= t.take(i as int));
                assert(t.take(i + 1).last() == v@[i as int]@);
                match json::as_text(json::get(&v[i], "identifier")) {
                    Some(x) => {
                        if text::same(x, id) {
                            return match json::as_number(json::get(&v[i], "minRuntimeVersion")) {
                                Some(n) => n,
                                None => 0,
                            };
                        }
                    },
                    None => {},
                }
            }
            0
        },
    }
}

pub open spec fn is_iphone(t: JsonView) -> bool {
    json::text_of(json::field(t, "productFamily"@)) == Some("iPhone"@)
}

/// The rank of a device type: the lowest runtime that it needs.
pub open spec fn device_rank(t: JsonView, catalog: Seq<JsonView>) -> int {
    match json::text_of(json::field(t, "identifier"@)) {
        Some(id) => min_runtime(catalog, id),
        None => 0,
    }
}

/// The position of the iPhone of the highest rank; the last of them if several tie.
pub open spec fn best_device(types: Seq<JsonView>, catalog: Seq<JsonView>) -> Option<int>
    decreases types.len(),
{
    if types.len() == 0 {
        None
    } else {
        let before = best_device(types.drop_last(), catalog);
        let last = types.last();
        if !is_iphone(last) {
            before
        } else {
            match before {
                Some(i) => if device_rank(last, catalog) < device_rank(types[i], catalog) {
                    before
                } else {
                    Some(types.len() - 1)
                },
                None => Some(types.len() - 1),
            }
        }
    }
}

/// The default device type is an iPhone, and no iPhone of the runtime is of a later generation,
/// wherever it stands in the runtime's list.
pub proof fn lemma_newest_device(types: Seq<JsonView>, catalog: Seq<JsonView>, j: int)
    requires
        0 <= j < types.len(),
        is_iphone(types[j]),
    ensures
        best_device(types, catalog) matches Some(i) && 0 <= i < types.len() && is_iphone(types[i])
            && device_rank(types[j], catalog) <= device_rank(types[i], catalog),
    decreases types.len(),
{
    let f = types.drop_last();
    if j < f.len() {
        assert(f[j] == types[j]);
        lemma_newest_device(f, catalog, j);
        let i = best_device(f, catalog)->0;
        assert(f[i] == types[i]);
    } else {
        lemma_best_is_iphone(f, catalog);
        match best_device(f, catalog) {
            Some(i) => {
                assert(f[i] == types[i]);
            },
            None => {},
        }
    }
}

proof fn lemma_best_is_iphone(types: Seq<JsonView>, catalog: Seq<JsonView>)
    ensures
        best_device(types, catalog) matches Some(i) ==> 0 <= i < types.len() && is_iphone(
            types[i],
        ),
    decreases types.len(),
{
    if types.len() > 0 {
        let f = types.drop_last();
        lemma_best_is_iphone(f, catalog);
        match best_device(f, catalog) {
            Some(i) => {
                assert(f[i] == types[i]);
            },
            None => {},
        }
    }
}

pub open spec fn types_in(runtime: JsonView) -> Seq<JsonView> {
    json::list_of(json::field(runtime, "supportedDeviceTypes"@))
}

pub open spec fn catalog_in(doc: JsonView) -> Seq<JsonView> {
    json::list_of(json::field(doc, "devicetypes"@))
}

/// The identifier and the name of the default device type: the newest iPhone that the runtime
/// supports, whatever the order of its list.
pub open spec fn default_type(runtime: JsonView, doc: JsonView) -> Option<(Seq<char>, Seq<char>)> {
    match best_device(types_in(runtime), catalog_in(doc)) {
        Some(i) => Some(
            (
                text_or(json::field(types_in(runtime)[i], "identifier"@), Seq::empty()),
                text_or(json::field(types_in(runtime)[i], "name"@), Seq::empty()),
            ),
        ),
        None => None,
    }
}

/// The default device type of a runtime is given by the identifier and the name of the very type
/// that was chosen, and there is one wherever the runtime supports an iPhone.
pub proof fn lemma_default_type(runtime: JsonView, doc: JsonView, j: int)
    requires
        0 <= j < types_in(runtime).len(),
        json::field(types_in(runtime)[j], "productFamily"@) == Some(JsonView::Str("iPhone"@)),
    ensures
        best_device(types_in(runtime), catalog_in(doc)) matches Some(i) && 0 <= i < types_in(
            runtime,
        ).len() && json::field(types_in(runtime)[i], "productFamily"@) == Some(
            JsonView::Str("iPhone"@),
        ) && device_rank(types_in(runtime)[j], catalog_in(doc)) <= device_rank(
            types_in(runtime)[i],
            catalog_in(doc),
        ) && (json::field(types_in(runtime)[i], "identifier"@) matches Some(JsonView::Str(id))
            ==> json::field(types_in(runtime)[i], "name"@) matches Some(JsonView::Str(name))
            ==> default_type(runtime, doc) == Some((id, name))),
{
    lemma_newest_device(types_in(runtime), catalog_in(doc), j);
}

fn rank_of(t: &Json, catalog: Option<&Vec<Json>>) -> (r: i64)
    ensures
        r == device_rank(
            t@,
            match catalog {
                Some(v) => json::items(v@),
                None => Seq::empty(),
            },
        ),
{
    match json::as_text(json::get(t, "identifier")) {
        Some(id) => find_min_runtime(catalog, id),
        None => 0,
    }
}

pub fn default_device(runtime: &Json, doc: &Json) -> (r: Result<(String, String), String>)
    ensures
        match default_type(runtime@, doc@) {
            Some((id, name)) => r matches Ok(x) && x.0@ == id && x.1@ == name,
            None => r matches Err(e) && e@ == "no iPhone device type for the newest runtime"@,
        },
{
    let catalog: Option<&Vec<Json>> = json::as_list(json::get(doc, "devicetypes"));
    let ghost cat = catalog_in(doc@);
    let mut best: Option<usize> = None;
    match json::as_list(json::get(runtime, "supportedDeviceTypes")) {
        Some(list) => {
            let ghost t = json::items(list@);
            let mut i: usize = 0;
            assert(t.take(0) =~= Seq::empty());
            while i < list.len()
                invariant
                    i <= list@.len(),
                    t == json::items(list@),
                    cat == (match catalog {
                        Some(v) => json::items(v@),
                        None => Seq::empty(),
                    }),
                    best is Some == best_device(t.take(i as int), cat) is Some,
                    best matches Some(k) ==> k < i && best_device(t.take(i as int), cat) == Some(
                        k as int,
                    ),
                decreases list@.len() - i,
            {
                let x: &Json = &list[i];
                assert(x@ == t[i as int]);
                assert(t.take(i + 1).drop_last() =~= t.take(i as int));
                assert(t.take(i + 1).last() == x@);
                let iphone: bool = match json::as_text(json::get(x, "productFamily")) {
                    Some(s) => text::same(s, "iPhone"),
                    None => false,
                };
                if iphone {
                    match best {
                        Some(k) => {
                            assert(t.take(i as int)[k as int] == t[k as int]);
                            assert(t.take(i + 1)[k as int] == t[k as int]);
                            if rank_of(x, catalog) >= rank_of(&list[k], catalog) {
                                best = Some(i);
                            }
                        },
                        None => {
                            best = Some(i);
                        },
                    }
                }
                i += 1;
            }
            assert(t.take(i as int) =~= t);
            match best {
                Some(k) => {
                    let empty: String = text::empty();
                    let id: &str = json_text_or(json::get(&list[k], "identifier"), empty.as_str());
                    let name: &str = json_text_or(json::get(&list[k], "name"), empty.as_str());
                    Ok((id.to_owned(), name.to_owned()))
                },
                None => Err("no iPhone device type for the newest runtime".to_owned()),
            }
        },
        None => Err("no iPhone device type for the newest runtime".to_owned()),
    }
}

// ---------------------------------------------------------------------------
// Devices
// ---------------------------------------------------------------------------

pub open spec fn devices_in(doc: JsonView) -> Seq<(Seq<char>, JsonView)> {
    json::object_of(json::field(doc, "devices"@))
}

/// The state of the first device of the identifier in a list.
pub open spec fn state_among(devices: Seq<JsonView>, udid: Seq<char>) -> Option<Seq<char>>
    decreases devices.len(),
{
    if devices.len() == 0 {
        None
    } else if json::text_of(json::field(devices[0], "udid"@)) == Some(udid) {
        Some(text_or(json::field(devices[0], "state"@), "?"@))
    } else {
        state_among(devices.skip(1), udid)
    }
}

/// The state and the runtime of a device; `None` if it does not exist.
pub open spec fn device_among(runtimes: Seq<(Seq<char>, JsonView)>, udid: Seq<char>) -> Option<
    (Seq<char>, Seq<char>),
>
    decreases runtimes.len(),
{
    if runtimes.len() == 0 {
        None
    } else {
        match state_among(json::list_of(Some(runtimes[0].1)), udid) {
            Some(state) => Some((state, runtimes[0].0)),
            None => device_among(runtimes.skip(1), udid),
        }
    }
}

/// A device is found wherever it stands, with its own state and under the runtime that lists it; a
/// device that no runtime lists is not found.
pub proof fn lemma_device_is_found(
    runtimes: Seq<(Seq<char>, JsonView)>,
    udid: Seq<char>,
    r: int,
    d: int,
    state: Seq<char>,
)
    ensures
        ({
            let devices = json::list_of(Some(runtimes[r].1));
            &&& 0 <= r < runtimes.len()
            &&& 0 <= d < devices.len()
            &&& json::field(devices[d], "udid"@) == Some(JsonView::Str(udid))
            &&& json::field(devices[d], "state"@) == Some(JsonView::Str(state))
            &&& forall|k: int|
                0 <= k < d ==> json::field(#[trigger] devices[k], "udid"@) != Some(
                    JsonView::Str(udid),
                )
            &&& forall|q: int| 0 <= q < r ==> lists_not(#[trigger] runtimes[q], udid)
        }) ==> device_among(runtimes, udid) == Some((state, runtimes[r].0)),
        (forall|q: int| 0 <= q < runtimes.len() ==> lists_not(#[trigger] runtimes[q], udid))
            ==> device_among(runtimes, udid) is None,
    decreases runtimes.len(),
{
    if runtimes.len() > 0 {
        let rest = runtimes.skip(1);
        lemma_device_is_found(rest, udid, r - 1, d, state);
        assert forall|q: int| 0 <= q < rest.len() implies #[trigger] rest[q] == runtimes[q + 1] by {}
        let first = json::list_of(Some(runtimes[0].1));
        if lists_not(runtimes[0], udid) {
            lemma_state_is_found(first, udid, -1);
        }
        if r == 0 {
            lemma_state_is_found(first, udid, d);
        }
        if 0 < r < runtimes.len() && (forall|q: int|
            0 <= q < r ==> lists_not(#[trigger] runtimes[q], udid)) {
            assert(rest[r - 1] == runtimes[r]);
            assert forall|q: int| 0 <= q < r - 1 implies lists_not(#[trigger] rest[q], udid) by {
                assert(lists_not(runtimes[q + 1], udid));
            }
            assert(lists_not(runtimes[0], udid));
        }
        if forall|q: int| 0 <= q < runtimes.len() ==> lists_not(#[trigger] runtimes[q], udid) {
            assert forall|q: int| 0 <= q < rest.len() implies lists_not(#[trigger] rest[q], udid) by {
                assert(lists_not(runtimes[q + 1], udid));
            }
            assert(lists_not(runtimes[0], udid));
        }
    }
}

/// Whether a runtime lists no device of the identifier.
pub open spec fn lists_not(runtime: (Seq<char>, JsonView), udid: Seq<char>) -> bool {
    forall|k: int|
        0 <= k < json::list_of(Some(runtime.1)).len() ==> json::field(
            #[trigger] json::list_of(Some(runtime.1))[k],
            "udid"@,
        ) != Some(JsonView::Str(udid))
}

proof fn lemma_state_is_found(devices: Seq<JsonView>, udid: Seq<char>, d: int)
    ensures
        0 <= d < devices.len() && json::field(devices[d], "udid"@) == Some(JsonView::Str(udid))
            && (forall|k: int|
            0 <= k < d ==> json::field(#[trigger] devices[k], "udid"@) != Some(
                JsonView::Str(udid),
            )) ==> state_among(devices, udid) == Some(
            text_or(json::field(devices[d], "state"@), "?"@),
        ),
        (forall|k: int|
            0 <= k < devices.len() ==> json::field(#[trigger] devices[k], "udid"@) != Some(
                JsonView::Str(udid),
            )) ==> state_among(devices, udid) is None,
    decreases devices.len(),
{
    if devices.len() > 0 {
        let rest = devices.skip(1);
        lemma_state_is_found(rest, udid, d - 1);
        assert forall|k: int| 0 <= k < rest.len() implies #[trigger] rest[k] == devices[k + 1] by {}
        if 0 < d < devices.len() && (forall|k: int|
            0 <= k < d ==> json::field(#[trigger] devices[k], "udid"@) != Some(
                JsonView::Str(udid),
            )) {
            assert(rest[d - 1] == devices[d]);
            assert forall|k: int| 0 <= k < d - 1 implies json::field(#[trigger] rest[k], "udid"@)
                != Some(JsonView::Str(udid)) by {
                assert(rest[k] == devices[k + 1]);
            }
            assert(json::field(devices[0], "udid"@) != Some(JsonView::Str(udid)));
        }
        if forall|k: int|
            0 <= k < devices.len() ==> json::field(#[trigger] devices[k], "udid"@) != Some(
                JsonView::Str(udid),
            ) {
            assert forall|k: int| 0 <= k < rest.len() implies json::field(#[trigger] rest[k], "udid"@)
                != Some(JsonView::Str(udid)) by {
                assert(rest[k] == devices[k + 1]);
            }
            assert(json::field(devices[0], "udid"@) != Some(JsonView::Str(udid)));
        }
    }
}

fn find_state(devices: Option<&Vec<Json>>, udid: &str) -> (r: Option<String>)
    ensures
        crate::lima::opt_text(r) == state_among(
            match devices {
                Some(v) => json::items(v@),
                None => Seq::empty(),
            },
            udid@,
        ),
{
    match devices {
        None => None,
        Some(v) => {
            let ghost t = json::items(v@);
            let mut i: usize = 0;
            assert(t.skip(0) =~= t);
            while i < v.len()
                invariant
                    i <= v@.len(),
                    t == json::items(v@),
                    devices is Some,
                    t == json::items(devices->0@),
                    state_among(t, udid@) == state_among(t.skip(i as int), udid@),
                decreases v@.len() - i,
            {
                assert(t.skip(i as int)[0] == v@[i as int]@);
                assert(t.skip(i as int).skip(1) =~= t.skip(i + 1));
                match json::as_text(json::get(&v[i], "udid")) {
                    Some(u) => {
                        if text::same(u, udid) {
                            let state: &str = json_text_or(json::get(&v[i], "state"), "?");
                            return Some(state.to_owned());
                        }
                    },
                    None => {},
                }
                i += 1;
            }
            None
        },
    }
}

/// The state and the runtime of a device, from the list of devices.
pub fn device_state(doc: &Json, udid: &str) -> (r: Option<(String, String)>)
    ensures
        r is Some == device_among(devices_in(doc@), udid@) is Some,
        r matches Some(x) ==> device_among(devices_in(doc@), udid@) == Some((x.0@, x.1@)),
{
    match json::as_object(json::get(doc, "devices")) {
        None => None,
        Some(v) => {
            let ghost t = json::members(v@);
            let mut i: usize = 0;
            assert(t.skip(0) =~= t);
            while i < v.len()
                invariant
                    i <= v@.len(),
                    t == json::members(v@),
                    t == devices_in(doc@),
                    device_among(t, udid@) == device_among(t.skip(i as int), udid@),
                decreases v@.len() - i,
            {
                assert(t.skip(i as int)[0] == (v@[i as int].0@, v@[i as int].1@));
                assert(t.skip(i as int).skip(1) =~= t.skip(i + 1));
                match find_state(json::as_list(Some(&v[i].1)), udid) {
                    Some(state) => {
                        return Some((state, v[i].0.clone()));
                    },
                    None => {},
                }
                i += 1;
            }
            None
        },
    }
}

/// The table of states with a device's own, if it is among the wanted ones and has a state.
pub open spec fn with_state(
    t: Seq<(Seq<char>, Seq<char>)>,
    device: JsonView,
    wanted: Seq<Seq<char>>,
) -> Seq<(Seq<char>, Seq<char>)> {
    match (json::text_of(json::field(device, "udid"@)), json::text_of(
        json::field(device, "state"@),
    )) {
        (Some(u), Some(s)) => if wanted.contains(u) {
            table::inserted(t, u, s)
        } else {
            t
        },
        _ => t,
    }
}

pub open spec fn with_states(
    t: Seq<(Seq<char>, Seq<char>)>,
    devices: Seq<JsonView>,
    wanted: Seq<Seq<char>>,
) -> Seq<(Seq<char>, Seq<char>)>
    decreases devices.len(),
{
    if devices.len() == 0 {
        t
    } else {
        with_state(with_states(t, devices.drop_last(), wanted), devices.last(), wanted)
    }
}

/// The states of the wanted devices, by their identifiers.
pub open spec fn states_among(runtimes: Seq<(Seq<char>, JsonView)>, wanted: Seq<Seq<char>>) -> Seq<
    (Seq<char>, Seq<char>),
>
    decreases runtimes.len(),
{
    if runtimes.len() == 0 {
        Seq::empty()
    } else {
        with_states(
            states_among(runtimes.drop_last(), wanted),
            json::list_of(Some(runtimes.last().1)),
            wanted,
        )
    }
}

/// Reading one more device adds its state under its identifier if it is wanted, and leaves the
/// states of all other devices as they are; the states of all runtimes are read.
pub proof fn lemma_every_state_is_read(
    t: Seq<(Seq<char>, Seq<char>)>,
    devices: Seq<JsonView>,
    x: JsonView,
    udid: Seq<char>,
    state: Seq<char>,
    wanted: Seq<Seq<char>>,
    other: Seq<char>,
    runtimes: Seq<(Seq<char>, JsonView)>,
    runtime: (Seq<char>, JsonView),
)
    requires
        json::field(x, "udid"@) == Some(JsonView::Str(udid)),
        json::field(x, "state"@) == Some(JsonView::Str(state)),
    ensures
        wanted.contains(udid) ==> table::lookup(with_states(t, devices.push(x), wanted), udid)
            == Some(state),
        other != udid || !wanted.contains(udid) ==> table::lookup(
            with_states(t, devices.push(x), wanted),
            other,
        ) == table::lookup(with_states(t, devices, wanted), other),
        with_states(t, Seq::empty(), wanted) == t,
        states_among(Seq::empty(), wanted).len() == 0,
        runtime.1 matches JsonView::Arr(v) ==> states_among(runtimes.push(runtime), wanted)
            == with_states(states_among(runtimes, wanted), v, wanted),
{
    assert(devices.push(x).drop_last() =~= devices);
    assert(runtimes.push(runtime).drop_last() =~= runtimes);
    table::lemma_lookup_inserted(with_states(t, devices, wanted), udid, state, other);
}

fn add_states(t: &mut Vec<(String, String)>, devices: Option<&Vec<Json>>, wanted: &Vec<String>)
    ensures
        table::text_rows(final(t)@) == with_states(
            table::text_rows(old(t)@),
            match devices {
                Some(v) => json::items(v@),
                None => Seq::empty(),
            },
            text::texts(wanted@),
        ),
{
    match devices {
        None => {},
        Some(v) => {
            let ghost d = json::items(v@);
            let mut i: usize = 0;
            assert(d.take(0) =~= Seq::empty());
            while i < v.len()
                invariant
                    i <= v@.len(),
                    d == json::items(v@),
                    table::text_rows(t@) == with_states(
                        table::text_rows(old(t)@),
                        d.take(i as int),
                        text::texts(wanted@),
                    ),
                decreases v@.len() - i,
            {
                assert(d.take(i + 1).drop_last() =~= d.take(i as int));
                assert(d.take(i + 1).last() == v@[i as int]@);
                match json::as_text(json::get(&v[i], "udid")) {
                    Some(u) => match json::as_text(json::get(&v[i], "state")) {
                        Some(s) => {
                            if text::list_contains(wanted, u) {
                                table::insert_text(t, u, s);
                            }
                        },
                        None => {},
                    },
                    None => {},
                }
                i += 1;
            }
            assert(d.take(i as int) =~= d);
        },
    }
}

/// The states of devices, from the list of devices; none if the list could not be had.
pub fn states_for(udids: &Vec<String>, doc: Option<&Json>) -> (r: Vec<(String, String)>)
    ensures
        table::text_rows(r@) == match json::opt_json(doc) {
            Some(d) => states_among(devices_in(d), text::texts(udids@)),
            None => Seq::empty(),
        },
{
    let mut out: Vec<(String, String)> = Vec::new();
    assert(table::text_rows(out@) =~= Seq::empty());
    match doc {
        None => out,
        Some(d) => match json::as_object(json::get(d, "devices")) {
            None => out,
            Some(v) => {
                let ghost t = json::members(v@);
                let mut i: usize = 0;
                assert(t.take(0) =~= Seq::empty());
                while i < v.len()
                    invariant
                        i <= v@.len(),
                        t == json::members(v@),
                        table::text_rows(out@) == states_among(
                            t.take(i as int),
                            text::texts(udids@),
                        ),
                    decreases v@.len() - i,
                {
                    assert(t.take(i + 1).drop_last() =~= t.take(i as int));
                    assert(t.take(i + 1).last() == (v@[i as int].0@, v@[i as int].1@));
                    add_states(&mut out, json::as_list(Some(&v[i].1)), udids);
                    i += 1;
                }
                assert(t.take(i as int) =~= t);
                out
            },
        },
    }
}

/// The states of devices, from what `simctl list -j devices` printed; none if that is no document.
pub fn states_from(udids: &Vec<String>, out: &str) -> (r: Vec<(String, String)>)
    ensures
        table::text_rows(r@) == match json::json_text(out@) {
            Some(d) => states_among(devices_in(d), text::texts(udids@)),
            None => Seq::empty(),
        },
{
    match json::parse(out) {
        Some(d) => states_for(udids, Some(&d)),
        None => states_for(udids, None),
    }
}

/// Where a VM stands with its device.
#[derive(Clone, Copy, PartialEq, Eq, Structural, Debug)]
pub enum DeviceNeed {
    /// The recorded device exists.
    Ready,
    /// The recorded device is gone.
    Replace,
    /// No device was recorded.
    Create,
}

/// Decide whether a VM needs a new device; `exists` says whether the recorded one was found.
pub fn ensure_device(meta: &InstanceMeta, exists: bool) -> (r: DeviceNeed)
    ensures
        r == (if meta@.sim_udid.len() == 0 {
            DeviceNeed::Create
        } else if exists {
            DeviceNeed::Ready
        } else {
            DeviceNeed::Replace
        }),
{
    if meta.sim_udid.as_str().is_empty() {
        DeviceNeed::Create
    } else if exists {
        DeviceNeed::Ready
    } else {
        DeviceNeed::Replace
    }
}

pub fn device_ready(name: &str, udid: &str) -> (r: String)
    ensures
        r@ == "simulator ready: wtx-"@ + name@ + " ("@ + udid@ + ")"@,
{
    "simulator ready: wtx-".to_owned().concat(name).concat(" (").concat(udid).concat(")")
}

pub fn device_gone(udid: &str) -> (r: String)
    ensures
        r@ == "wtx: recorded simulator "@ + udid@ + " is gone; creating a new one"@,
{
    "wtx: recorded simulator ".to_owned().concat(udid).concat(" is gone; creating a new one")
}

/// The creation of a device: the arguments of `xcrun`, and the name of its type.
pub struct CreateDevice {
    pub args: Vec<String>,
    pub device_type: String,
}

pub open spec fn create_args(name: Seq<char>, id: Seq<char>, runtime: JsonView) -> Seq<Seq<char>> {
    seq![
        "simctl"@,
        "create"@,
        "wtx-"@ + name,
        id,
        text_or(json::field(runtime, "identifier"@), Seq::empty()),
    ]
}

/// How a device is created. The runtime is given explicitly, because the output is then the
/// identifier alone. The catalog of device types is needed only where no type is asked for.
pub fn create_device(
    name: &str,
    device: Option<&str>,
    runtime: &Json,
    catalog: &Json,
) -> (r: Result<CreateDevice, String>)
    ensures
        match util::opt_view(device) {
            Some(d) => r matches Ok(x) && text::texts(x.args@) == create_args(name@, d, runtime@)
                && x.device_type@ == d,
            None => match default_type(runtime@, catalog@) {
                Some((id, label_of_type)) => r matches Ok(x) && text::texts(x.args@) == create_args(
                    name@,
                    id,
                    runtime@,
                ) && x.device_type@ == label_of_type,
                None => r matches Err(e) && e@ == "no iPhone device type for the newest runtime"@,
            },
        },
{
    let empty: String = text::empty();
    let rt: &str = json_text_or(json::get(runtime, "identifier"), empty.as_str());
    let label: String = "wtx-".to_owned().concat(name);
    match device {
        Some(d) => Ok(
            CreateDevice {
                args: plan::args5("simctl", "create", label.as_str(), d, rt),
                device_type: d.to_owned(),
            },
        ),
        None => match default_device(runtime, catalog) {
            Ok((id, label_of_type)) => Ok(
                CreateDevice {
                    args: plan::args5("simctl", "create", label.as_str(), id.as_str(), rt),
                    device_type: label_of_type,
                },
            ),
            Err(e) => Err(e),
        },
    }
}

/// The identifier that `simctl` printed: its last line.
pub open spec fn printed_udid(out: Seq<char>) -> Seq<char> {
    let lines = text::lines_of(out);
    if lines.len() == 0 {
        text::stripped(Seq::empty())
    } else {
        text::stripped(lines.last())
    }
}

/// The identifier of a new device is the last line that was printed, whatever is printed before it.
pub proof fn lemma_udid_is_the_last_line(before: Seq<Seq<char>>, udid: Seq<char>)
    requires
        forall|i: int| 0 <= i < udid.len() ==> !text::is_space(#[trigger] udid[i]),
        forall|i: int|
            0 <= i < before.len() ==> !(#[trigger] before[i]).contains('\n') && (before[i].len() > 0
                ==> before[i].last() != '\r'),
    ensures
        printed_udid(crate::gitiso::printed(before.push(udid))) == udid,
{
    let lines = before.push(udid);
    assert forall|i: int| 0 <= i < lines.len() implies !(#[trigger] lines[i]).contains('\n') && (
    lines[i].len() > 0 ==> lines[i].last() != '\r') by {
        if i == before.len() {
            if udid.contains('\n') {
                let k = choose|k: int| 0 <= k < udid.len() && udid[k] == '\n';
                assert(!text::is_space(udid[k]));
            }
            if udid.len() > 0 {
                assert(!text::is_space(udid[udid.len() - 1]));
            }
        } else {
            assert(lines[i] == before[i]);
        }
    }
    crate::gitiso::lemma_printed_lines_are_read(lines);
    if udid.len() > 0 {
        assert(!text::is_space(udid[0]));
        assert(!text::is_space(udid[udid.len() - 1]));
    }
    text::lemma_trimmed_same(udid, text::Trim::Space);
}

pub fn udid_of(out: &str) -> (r: String)
    ensures
        r@ == printed_udid(out@),
{
    let lines: Vec<String> = text::lines(out);
    assert(text::texts(lines@).len() == lines@.len());
    if lines.len() == 0 {
        let e: String = text::empty();
        text::trim(e.as_str()).to_owned()
    } else {
        assert(text::texts(lines@).last() == lines@.last()@);
        text::trim(lines[lines.len() - 1].as_str()).to_owned()
    }
}

/// Record a new device.
pub fn record_device(meta: InstanceMeta, udid: &str, device_type: &str) -> (r: InstanceMeta)
    ensures
        r@ == (MetaView { sim_udid: udid@, sim_devicetype: device_type@, ..meta@ }),
        lima::well_formed(meta@) ==> lima::well_formed(r@),
{
    InstanceMeta {
        workdir: meta.workdir,
        main_repo: meta.main_repo,
        branch: meta.branch,
        seeded_from: meta.seeded_from,
        sim_udid: udid.to_owned(),
        sim_devicetype: device_type.to_owned(),
        ports: meta.ports,
        agent_access: meta.agent_access,
    }
}

/// A device is created under the VM's name, of the given type and on the given runtime.
pub proof fn lemma_created_device(name: Seq<char>, id: Seq<char>, runtime: JsonView, r: Seq<char>)
    requires
        json::field(runtime, "identifier"@) == Some(JsonView::Str(r)),
    ensures
        create_args(name, id, runtime) == seq!["simctl"@, "create"@, "wtx-"@ + name, id, r],
{
}

/// The status of a device tells the recorded one, with its state and its runtime where it was found,
/// that it is missing where it was not, and that there is none where none is recorded.
pub proof fn lemma_device_line(name: Seq<char>, m: MetaView, state: Seq<char>, runtime: Seq<char>)
    ensures
        m.sim_udid.len() > 0 ==> device_line(name, m, Some((state, runtime))) == name + ": wtx-"@
            + name + " ("@ + m.sim_udid + ") "@ + state + " ["@ + runtime + "]"@,
        m.sim_udid.len() > 0 ==> device_line(name, m, None) == name + ": recorded simulator "@
            + m.sim_udid + " is missing (recreate with `wtx sim up`)"@,
        m.sim_udid.len() == 0 ==> device_line(name, m, Some((state, runtime))) == name
            + ": no simulator (create one with `wtx sim up`)"@,
        ({
            let d = status_document(name, m, Some((state, runtime)), Seq::empty())->Obj_0;
            let n = status_document(name, m, None, Seq::empty())->Obj_0;
            &&& d.len() == 6 && n.len() == 6
            &&& d[1] == ("sim_devicetype"@, JsonView::Str(m.sim_devicetype))
            &&& d[2] == ("sim_runtime"@, JsonView::Str(runtime))
            &&& d[3] == ("sim_state"@, JsonView::Str(state))
            &&& d[4] == ("sim_udid"@, JsonView::Str(m.sim_udid))
            &&& d[5] == ("vm"@, JsonView::Str(name))
            &&& n[2] == ("sim_runtime"@, JsonView::Null) && n[3] == ("sim_state"@, JsonView::Null)
        }),
{
}

pub fn device_created(name: &str, device_type: &str, udid: &str) -> (r: String)
    ensures
        r@ == "created simulator wtx-"@ + name@ + " ("@ + device_type@ + ", "@ + udid@ + ")"@,
{
    "created simulator wtx-".to_owned().concat(name).concat(" (").concat(device_type).concat(
        ", ",
    ).concat(udid).concat(")")
}

/// The steps around the cloning of a device: it has to be shut down, and is booted again
/// afterwards if it ran.
pub struct CloneDevice {
    pub before: Vec<Step>,
    pub args: Vec<String>,
    pub booted: bool,
}

pub open spec fn clone_before(udid: Seq<char>, booted: bool, progress: bool) -> Seq<StepView> {
    if !booted {
        Seq::empty()
    } else {
        (if progress {
            seq![
                plan::says("shutting down the source simulator for a consistent copy..."@),
            ]
        } else {
            Seq::empty()
        }) + seq![plan::tries(Verb::Xcrun, seq!["simctl"@, "shutdown"@, udid])]
    }
}

pub fn clone_device(udid: &str, new_vm: &str, state: Option<&str>, progress: bool) -> (r: CloneDevice)
    ensures
        r.booted == (util::opt_view(state) == Some("Booted"@)),
        plan::steps(r.before@) == clone_before(udid@, r.booted, progress),
        text::texts(r.args@) == seq!["simctl"@, "clone"@, udid@, "wtx-"@ + new_vm@],
{
    let booted: bool = match state {
        Some(s) => text::same(s, "Booted"),
        None => false,
    };
    let mut before: Vec<Step> = plan::nothing();
    if booted {
        if progress {
            plan::push(
                &mut before,
                plan::say("shutting down the source simulator for a consistent copy..."),
            );
        }
        plan::push(
            &mut before,
            plan::attempt(Verb::Xcrun, plan::args3("simctl", "shutdown", udid)),
        );
    }
    assert(plan::steps(before@) =~= clone_before(udid@, booted, progress));
    let label: String = "wtx-".to_owned().concat(new_vm);
    CloneDevice { before, args: plan::args4("simctl", "clone", udid, label.as_str()), booted }
}

pub open spec fn clone_after(
    udid: Seq<char>,
    new_vm: Seq<char>,
    cloned: Seq<char>,
    booted: bool,
    progress: bool,
) -> Seq<StepView> {
    (if booted {
        seq![plan::tries(Verb::Xcrun, seq!["simctl"@, "boot"@, udid])]
    } else {
        Seq::empty()
    }) + (if progress {
        seq![plan::says("cloned simulator -> wtx-"@ + new_vm + " ("@ + cloned + ")"@)]
    } else {
        Seq::empty()
    })
}

pub fn device_cloned(udid: &str, new_vm: &str, cloned: &str, booted: bool, progress: bool) -> (r: Vec<
    Step,
>)
    ensures
        plan::steps(r@) == clone_after(udid@, new_vm@, cloned@, booted, progress),
{
    let mut p: Vec<Step> = plan::nothing();
    if booted {
        plan::push(&mut p, plan::attempt(Verb::Xcrun, plan::args3("simctl", "boot", udid)));
    }
    if progress {
        let line: String = "cloned simulator -> wtx-".to_owned().concat(new_vm).concat(
            " (",
        ).concat(cloned).concat(")");
        plan::push(&mut p, plan::say(line.as_str()));
    }
    assert(plan::steps(p@) =~= clone_after(udid@, new_vm@, cloned@, booted, progress));
    p
}

/// A source device that ran before it was cloned runs again afterwards: its shutdown comes with
/// its boot, and neither happens to a device that did not run.
pub proof fn lemma_source_device_is_restored(
    udid: Seq<char>,
    new_vm: Seq<char>,
    cloned: Seq<char>,
    booted: bool,
    progress: bool,
)
    ensures
        clone_before(udid, booted, progress).contains(
            plan::tries(Verb::Xcrun, seq!["simctl"@, "shutdown"@, udid]),
        ) == booted,
        clone_after(udid, new_vm, cloned, booted, progress).contains(
            plan::tries(Verb::Xcrun, seq!["simctl"@, "boot"@, udid]),
        ) == booted,
{
    let b = clone_before(udid, booted, progress);
    let a = clone_after(udid, new_vm, cloned, booted, progress);
    if booted {
        assert(b.last() == plan::tries(Verb::Xcrun, seq!["simctl"@, "shutdown"@, udid]));
        assert(a[0] == plan::tries(Verb::Xcrun, seq!["simctl"@, "boot"@, udid]));
    } else if progress {
        assert(a.len() == 1);
        assert(a[0].verb == Verb::Say);
    }
}

/// What `wtx sim rm` does: the steps, and the record without the device. `None` if there is no
/// device.
pub fn rm(meta: &InstanceMeta) -> (r: Option<(Vec<Step>, InstanceMeta)>)
    ensures
        r is None == (meta@.sim_udid.len() == 0),
        r matches Some(x) ==> plan::steps(x.0@) == deleting(meta@.sim_udid, false) && x.1@ == (
        MetaView { sim_udid: Seq::empty(), sim_devicetype: Seq::empty(), ..meta@ }),
{
    if meta.sim_udid.as_str().is_empty() {
        return None;
    }
    let steps: Vec<Step> = delete_device(meta.sim_udid.as_str(), false);
    let none: String = text::empty();
    let cleared: InstanceMeta = record_device(meta.clone(), none.as_str(), none.as_str());
    Some((steps, cleared))
}

pub fn no_device(name: &str) -> (r: String)
    ensures
        r@ == "no simulator recorded for "@ + name@,
{
    "no simulator recorded for ".to_owned().concat(name)
}

// ---------------------------------------------------------------------------
// Status
// ---------------------------------------------------------------------------

pub open spec fn armed(alive: bool) -> Seq<char> {
    if alive {
        "armed"@
    } else {
        "down"@
    }
}

pub open spec fn port_lines(ports: Seq<(Seq<char>, PortMap)>, alive: Seq<u16>) -> Seq<Seq<char>> {
    Seq::new(
        ports.len(),
        |i: int|
            "  "@ + ports[i].0 + ": host "@ + text::dec(ports[i].1.host as nat) + " -> guest "@
                + text::dec(ports[i].1.guest as nat) + " ["@ + armed(
                alive.contains(ports[i].1.host),
            ) + "]"@,
    )
}

pub open spec fn device_line(
    name: Seq<char>,
    m: MetaView,
    device: Option<(Seq<char>, Seq<char>)>,
) -> Seq<char> {
    if m.sim_udid.len() == 0 {
        name + ": no simulator (create one with `wtx sim up`)"@
    } else {
        match device {
            Some((state, runtime)) => name + ": wtx-"@ + name + " ("@ + m.sim_udid + ") "@ + state
                + " ["@ + runtime + "]"@,
            None => name + ": recorded simulator "@ + m.sim_udid
                + " is missing (recreate with `wtx sim up`)"@,
        }
    }
}

pub open spec fn opt_device(d: Option<(String, String)>) -> Option<(Seq<char>, Seq<char>)> {
    match d {
        Some(x) => Some((x.0@, x.1@)),
        None => None,
    }
}

/// Every mapping of a record has its line, in the record's order, with its own ports and whether its
/// own forward is up.
pub proof fn lemma_every_mapping_has_its_line(
    ports: Seq<(Seq<char>, PortMap)>,
    alive: Seq<u16>,
    i: int,
)
    ensures
        port_lines(ports, alive).len() == ports.len(),
        ports_status_json(ports, alive).len() == ports.len(),
        0 <= i < ports.len() ==> {
            let p = ports[i].1;
            let l = port_lines(ports, alive)[i];
            let begin = "  "@ + ports[i].0 + ": host "@ + text::dec(p.host as nat) + " -> guest "@
                + text::dec(p.guest as nat);
            &&& alive.contains(p.host) ==> l == begin + " ["@ + "armed"@ + "]"@
            &&& !alive.contains(p.host) ==> l == begin + " ["@ + "down"@ + "]"@
            &&& ports_status_json(ports, alive)[i].0 == ports[i].0
            &&& json::field(ports_status_json(ports, alive)[i].1, "host"@) == Some(
                JsonView::Num(p.host as int),
            )
            &&& json::field(ports_status_json(ports, alive)[i].1, "guest"@) == Some(
                JsonView::Num(p.guest as int),
            )
            &&& json::field(ports_status_json(ports, alive)[i].1, "forward_alive"@) == Some(
                JsonView::Bool(alive.contains(p.host)),
            )
        },
{
    if 0 <= i < ports.len() {
        let m = port_status_json(ports[i].1, alive)->Obj_0;
        reveal_strlit("forward_alive");
        reveal_strlit("guest");
        reveal_strlit("host");
        reveal_with_fuel(table::lookup, 4);
        assert(m.skip(1)[0] == m[1]);
        assert(m.skip(1).skip(1)[0] == m[2]);
        assert("forward_alive"@.len() == 13 && "guest"@.len() == 5 && "host"@.len() == 4);
    }
}

/// The lines of `wtx sim status`; `alive` holds the host ports whose forwards are up.
pub fn status(
    name: &str,
    meta: &InstanceMeta,
    device: &Option<(String, String)>,
    alive: &Vec<u16>,
) -> (r: Vec<String>)
    ensures
        text::texts(r@) == seq![device_line(name@, meta@, opt_device(*device))] + port_lines(
            meta@.ports,
            alive@,
        ),
{
    let udid: &str = meta.sim_udid.as_str();
    let first: String = if udid.is_empty() {
        name.to_owned().concat(": no simulator (create one with `wtx sim up`)")
    } else {
        match device {
            Some((state, runtime)) => name.to_owned().concat(": wtx-").concat(name).concat(
                " (",
            ).concat(udid).concat(") ").concat(state.as_str()).concat(" [").concat(
                runtime.as_str(),
            ).concat("]"),
            None => name.to_owned().concat(": recorded simulator ").concat(udid).concat(
                " is missing (recreate with `wtx sim up`)",
            ),
        }
    };
    let mut out: Vec<String> = plan::args1(first.as_str());
    let ghost head = text::texts(out@);
    let ghost all = port_lines(meta@.ports, alive@);
    let mut i: usize = 0;
    assert(head + all.take(0) =~= head);
    while i < meta.ports.len()
        invariant
            i <= meta.ports@.len(),
            all == port_lines(meta@.ports, alive@),
            text::texts(out@) == head + all.take(i as int),
        decreases meta.ports@.len() - i,
    {
        let h: String = text::dec_of(meta.ports[i].1.host as u64);
        let g: String = text::dec_of(meta.ports[i].1.guest as u64);
        let word: &str = if port::contains_port(alive, meta.ports[i].1.host) { "armed" } else { "down" };
        let line: String = "  ".to_owned().concat(meta.ports[i].0.as_str()).concat(": host ").concat(
            h.as_str(),
        ).concat(" -> guest ").concat(g.as_str()).concat(" [").concat(word).concat("]");
        text::push_string(&mut out, line);
        assert(text::texts(out@) =~= head + all.take(i as int).push(all[i as int]));
        assert(all.take(i + 1) =~= all.take(i as int).push(all[i as int]));
        i += 1;
    }
    assert(all.take(i as int) =~= all);
    out
}

pub open spec fn port_status_json(p: PortMap, alive: Seq<u16>) -> JsonView {
    JsonView::Obj(
        seq![
            ("forward_alive"@, JsonView::Bool(alive.contains(p.host))),
            ("guest"@, JsonView::Num(p.guest as int)),
            ("host"@, JsonView::Num(p.host as int)),
        ],
    )
}

pub open spec fn ports_status_json(ports: Seq<(Seq<char>, PortMap)>, alive: Seq<u16>) -> Seq<
    (Seq<char>, JsonView),
> {
    Seq::new(ports.len(), |i: int| (ports[i].0, port_status_json(ports[i].1, alive)))
}

pub open spec fn text_or_null(s: Option<Seq<char>>) -> JsonView {
    match s {
        Some(x) => JsonView::Str(x),
        None => JsonView::Null,
    }
}

/// The document of `wtx sim status --json`.
pub open spec fn status_document(
    name: Seq<char>,
    m: MetaView,
    device: Option<(Seq<char>, Seq<char>)>,
    alive: Seq<u16>,
) -> JsonView {
    JsonView::Obj(
        seq![
            ("ports"@, JsonView::Obj(ports_status_json(m.ports, alive))),
            ("sim_devicetype"@, JsonView::Str(m.sim_devicetype)),
            (
                "sim_runtime"@,
                text_or_null(
                    match device {
                        Some((_, r)) => Some(r),
                        None => None,
                    },
                ),
            ),
            (
                "sim_state"@,
                text_or_null(
                    match device {
                        Some((s, _)) => Some(s),
                        None => None,
                    },
                ),
            ),
            ("sim_udid"@, JsonView::Str(m.sim_udid)),
            ("vm"@, JsonView::Str(name)),
        ],
    )
}

pub fn status_json(
    name: &str,
    meta: &InstanceMeta,
    device: &Option<(String, String)>,
    alive: &Vec<u16>,
) -> (r: Json)
    ensures
        r@ == status_document(name@, meta@, opt_device(*device), alive@),
{
    let mut ports: Vec<(String, Json)> = json::no_members();
    let ghost all = ports_status_json(meta@.ports, alive@);
    let mut i: usize = 0;
    assert(all.take(0) =~= Seq::empty());
    while i < meta.ports.len()
        invariant
            i <= meta.ports@.len(),
            all == ports_status_json(meta@.ports, alive@),
            json::members(ports@) == all.take(i as int),
        decreases meta.ports@.len() - i,
    {
        let p: PortMap = meta.ports[i].1;
        let mut m: Vec<(String, Json)> = json::no_members();
        json::member(&mut m, "forward_alive", Json::Bool(port::contains_port(alive, p.host)));
        json::member(&mut m, "guest", Json::Num(p.guest as i64));
        json::member(&mut m, "host", Json::Num(p.host as i64));
        assert(json::members(m@) =~= port_status_json(p, alive@)->Obj_0);
        json::member(&mut ports, meta.ports[i].0.as_str(), json::object(m));
        assert(all.take(i + 1) =~= all.take(i as int).push(all[i as int]));
        i += 1;
    }
    assert(all.take(i as int) =~= all);
    let mut m: Vec<(String, Json)> = json::no_members();
    json::member(&mut m, "ports", json::object(ports));
    json::member(&mut m, "sim_devicetype", json::string(meta.sim_devicetype.as_str()));
    match device {
        Some((state, runtime)) => {
            json::member(&mut m, "sim_runtime", json::string(runtime.as_str()));
            json::member(&mut m, "sim_state", json::string(state.as_str()));
        },
        None => {
            json::member(&mut m, "sim_runtime", Json::Null);
            json::member(&mut m, "sim_state", Json::Null);
        },
    }
    json::member(&mut m, "sim_udid", json::string(meta.sim_udid.as_str()));
    json::member(&mut m, "vm", json::string(name));
    assert(json::members(m@) =~= status_document(
        name@,
        meta@,
        opt_device(*device),
        alive@,
    )->Obj_0);
    json::object(m)
}

} // verus!
