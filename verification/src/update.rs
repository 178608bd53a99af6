//! Release checks with a cache of a day, and upgrades through Homebrew.
use vstd::prelude::*;

use crate::json::{self, Json, JsonView};
use crate::lima::opt_text;
use crate::path;
use crate::plan::{self, Step, StepView, Verb};
use crate::text;
use crate::util;

verus! {

pub const SCHEMA_VERSION: u32 = 1;

/// How long a release check counts, in seconds.
pub const CACHE_TTL_SECS: u64 = 86400;

pub const LATEST_RELEASE_URL: &'static str = "https://api.github.com/repos/rakutek/wtx/releases/latest";

pub const GITHUB_API_VERSION: &'static str = "2022-11-28";

pub const HOMEBREW_FORMULA: &'static str = "rakutek/tap/wtx";

// ---------------------------------------------------------------------------
// Versions
// ---------------------------------------------------------------------------

/// A semantic version.
pub struct Release {
    pub major: u64,
    pub minor: u64,
    pub patch: u64,
    pub pre: String,
    pub build: String,
}

pub struct ReleaseView {
    pub major: u64,
    pub minor: u64,
    pub patch: u64,
    pub pre: Seq<char>,
    pub build: Seq<char>,
}

impl View for Release {
    type V = ReleaseView;

    open spec fn view(&self) -> ReleaseView {
        ReleaseView {
            major: self.major,
            minor: self.minor,
            patch: self.patch,
            pre: self.pre@,
            build: self.build@,
        }
    }
}

pub open spec fn behind(mark: Seq<char>, s: Seq<char>) -> Seq<char> {
    if s.len() == 0 {
        Seq::empty()
    } else {
        mark + s
    }
}

/// A version as it is written.
pub open spec fn written(v: ReleaseView) -> Seq<char> {
    text::dec(v.major as nat) + "."@ + text::dec(v.minor as nat) + "."@ + text::dec(v.patch as nat)
        + behind("-"@, v.pre) + behind("+"@, v.build)
}

impl Release {
    pub fn text(&self) -> (r: String)
        ensures
            r@ == written(self@),
    {
        let a: String = text::dec_of(self.major);
        let b: String = text::dec_of(self.minor);
        let c: String = text::dec_of(self.patch);
        let pre: String = if self.pre.as_str().is_empty() {
            text::empty()
        } else {
            "-".to_owned().concat(self.pre.as_str())
        };
        let build: String = if self.build.as_str().is_empty() {
            text::empty()
        } else {
            "+".to_owned().concat(self.build.as_str())
        };
        a.concat(".").concat(b.as_str()).concat(".").concat(c.as_str()).concat(pre.as_str()).concat(
            build.as_str(),
        )
    }
}

/// The version that a text writes; `None` if it writes none.
pub uninterp spec fn release_text(s: Seq<char>) -> Option<ReleaseView>;

/// `semver::Version::parse`: whether the text is a semantic version, and which, depends on the
/// text alone; and a version that was parsed, written out again, parses to the same version.
#[verifier::external_body]
fn read_release(s: &str) -> (r: Option<Release>)
    ensures
        r is Some == release_text(s@) is Some,
        r matches Some(v) ==> release_text(s@) == Some(v@) && release_text(written(v@)) == Some(
            v@,
        ),
{
    semver::Version::parse(s).ok().map(
        |v| Release {
            major: v.major,
            minor: v.minor,
            patch: v.patch,
            pre: v.pre.as_str().to_owned(),
            build: v.build.as_str().to_owned(),
        },
    )
}

/// Whether a version comes before another in the order of semantic versions.
pub uninterp spec fn release_less(a: ReleaseView, b: ReleaseView) -> bool;

/// Whether the numbers of a version come before those of another.
pub open spec fn numbers_less(a: ReleaseView, b: ReleaseView) -> bool {
    a.major < b.major || (a.major == b.major && (a.minor < b.minor || (a.minor == b.minor && a.patch
        < b.patch)))
}

/// The order of `semver::Version` (`<`). It depends on the two versions alone; it is decided by
/// the three numbers where they differ, and a version does not come before itself. The parts
/// behind the numbers are those of versions that `semver::Version::parse` accepts, so that
/// `Prerelease::new` and `BuildMetadata::new` accept them too.
#[verifier::external_body]
fn is_less(a: &Release, b: &Release) -> (r: bool)
    requires
        release_text(written(a@)) == Some(a@),
        release_text(written(b@)) == Some(b@),
    ensures
        r == release_less(a@, b@),
        numbers_less(a@, b@) ==> r,
        numbers_less(b@, a@) ==> !r,
        a@ == b@ ==> !r,
{
    let x = semver::Version {
        major: a.major,
        minor: a.minor,
        patch: a.patch,
        pre: semver::Prerelease::new(&a.pre).unwrap(),
        build: semver::BuildMetadata::new(&a.build).unwrap(),
    };
    let y = semver::Version {
        major: b.major,
        minor: b.minor,
        patch: b.patch,
        pre: semver::Prerelease::new(&b.pre).unwrap(),
        build: semver::BuildMetadata::new(&b.build).unwrap(),
    };
    x < y
}

/// A release tag without the `v` in front of it.
pub open spec fn untagged(raw: Seq<char>) -> Seq<char> {
    if raw.len() > 0 && (raw[0] == 'v' || raw[0] == 'V') {
        raw.skip(1)
    } else {
        raw
    }
}

pub fn strip_tag<'a>(raw: &'a str) -> (r: &'a str)
    ensures
        r@ == untagged(raw@),
{
    let n: usize = raw.unicode_len();
    if n > 0 && (raw.get_char(0) == 'v' || raw.get_char(0) == 'V') {
        assert(raw@.subrange(1, n as int) =~= raw@.skip(1));
        raw.substring_char(1, n)
    } else {
        raw
    }
}

/// Parse the version of a release.
pub fn parse_version(raw: &str) -> (r: Result<Release, String>)
    ensures
        match release_text(untagged(raw@)) {
            Some(v) => r matches Ok(x) && x@ == v && release_text(written(v)) == Some(v),
            None => r matches Err(e) && e@ == "invalid release version: "@ + raw@,
        },
{
    match read_release(strip_tag(raw)) {
        Some(v) => Ok(v),
        None => Err("invalid release version: ".to_owned().concat(raw)),
    }
}

/// A written version begins with a digit, and so with no tag.
pub proof fn lemma_written_is_untagged(v: ReleaseView)
    ensures
        untagged(written(v)) == written(v),
{
    text::lemma_dec(v.major as nat);
    let d = text::dec(v.major as nat);
    assert(text::is_digit(d[0]));
    assert(written(v)[0] == d[0]);
}

// ---------------------------------------------------------------------------
// Status and cache
// ---------------------------------------------------------------------------

pub struct UpdateStatus {
    pub schema_version: u32,
    pub current_version: String,
    pub latest_version: String,
    pub update_available: bool,
    pub release_url: String,
}

pub struct StatusView {
    pub schema_version: u32,
    pub current_version: Seq<char>,
    pub latest_version: Seq<char>,
    pub update_available: bool,
    pub release_url: Seq<char>,
}

impl View for UpdateStatus {
    type V = StatusView;

    open spec fn view(&self) -> StatusView {
        StatusView {
            schema_version: self.schema_version,
            current_version: self.current_version@,
            latest_version: self.latest_version@,
            update_available: self.update_available,
            release_url: self.release_url@,
        }
    }
}

impl Clone for UpdateStatus {
    fn clone(&self) -> (r: Self)
        ensures
            r@ == self@,
    {
        UpdateStatus {
            schema_version: self.schema_version,
            current_version: self.current_version.clone(),
            latest_version: self.latest_version.clone(),
            update_available: self.update_available,
            release_url: self.release_url.clone(),
        }
    }
}

/// The last release check.
pub struct UpdateCache {
    pub schema_version: u32,
    pub checked_at: u64,
    pub etag: Option<String>,
    pub latest_version: String,
    pub release_url: String,
}

pub struct CacheView {
    pub schema_version: u32,
    pub checked_at: u64,
    pub etag: Option<Seq<char>>,
    pub latest_version: Seq<char>,
    pub release_url: Seq<char>,
}

impl View for UpdateCache {
    type V = CacheView;

    open spec fn view(&self) -> CacheView {
        CacheView {
            schema_version: self.schema_version,
            checked_at: self.checked_at,
            etag: opt_text(self.etag),
            latest_version: self.latest_version@,
            release_url: self.release_url@,
        }
    }
}

pub open spec fn opt_cache(c: Option<&UpdateCache>) -> Option<CacheView> {
    match c {
        Some(x) => Some(x@),
        None => None,
    }
}

pub fn cache_path(home: &str) -> (r: String)
    ensures
        r@ == path::below(util::home_of(home@), "update-check.json"@),
{
    path::join(util::wtx_home(home).as_str(), "update-check.json")
}

/// Whether a check still counts at the given time, in seconds. One from the future counts.
pub open spec fn fresh(c: CacheView, now: u64) -> bool {
    c.schema_version == SCHEMA_VERSION && now - c.checked_at < CACHE_TTL_SECS
}

pub fn cache_is_fresh(cache: &UpdateCache, now: u64) -> (r: bool)
    ensures
        r == fresh(cache@, now),
{
    cache.schema_version == SCHEMA_VERSION && now.saturating_sub(cache.checked_at) < CACHE_TTL_SECS
}

/// Accept a cache of the known schema.
pub fn accept_cache(cache: UpdateCache) -> (r: Result<UpdateCache, String>)
    ensures
        if cache.schema_version == SCHEMA_VERSION {
            r matches Ok(x) && x@ == cache@
        } else {
            r matches Err(e) && e@ == "unsupported update cache schema"@
        },
{
    if cache.schema_version != SCHEMA_VERSION {
        return Err("unsupported update cache schema".to_owned());
    }
    Ok(cache)
}

/// What is known of updates, for two versions and whether the latest is the newer one.
pub open spec fn status_between(
    current: ReleaseView,
    latest: ReleaseView,
    newer: bool,
    url: Seq<char>,
) -> StatusView {
    StatusView {
        schema_version: SCHEMA_VERSION,
        current_version: written(current),
        latest_version: written(latest),
        update_available: newer,
        release_url: url,
    }
}

pub fn status_of(current: &Release, latest: &Release, newer: bool, url: &str) -> (r: UpdateStatus)
    ensures
        r@ == status_between(current@, latest@, newer, url@),
{
    UpdateStatus {
        schema_version: SCHEMA_VERSION,
        current_version: current.text(),
        latest_version: latest.text(),
        update_available: newer,
        release_url: url.to_owned(),
    }
}

/// Whether an answer to "is the second release newer" fits the numbers of both: it is newer with
/// greater numbers, and not with smaller ones or if it is the same release.
pub open spec fn fits_numbers(
    current: Option<ReleaseView>,
    latest: Option<ReleaseView>,
    newer: bool,
) -> bool {
    match (current, latest) {
        (Some(c), Some(l)) => {
            &&& numbers_less(c, l) ==> newer
            &&& numbers_less(l, c) ==> !newer
            &&& c == l ==> !newer
        },
        _ => true,
    }
}

/// What is known of updates, for the version that runs and the tag of the latest release.
pub open spec fn status_for(current: Seq<char>, latest: Seq<char>, url: Seq<char>) -> Result<
    StatusView,
    Seq<char>,
> {
    match release_text(current) {
        None => Err("invalid release version: "@ + current),
        Some(c) => match release_text(untagged(latest)) {
            None => Err("invalid release version: "@ + latest),
            Some(l) => Ok(status_between(c, l, release_less(c, l), url)),
        },
    }
}

/// Compare the version that runs with the latest release. What is kept of the result gives the
/// same result again.
pub fn status(current: &str, latest: &str, url: &str) -> (r: Result<UpdateStatus, String>)
    ensures
        match status_for(current@, latest@, url@) {
            Ok(v) => r matches Ok(x) && x@ == v,
            Err(e) => r matches Err(x) && x@ == e,
        },
        r matches Ok(x) ==> status_for(current@, x@.latest_version, x@.release_url) == Ok::<
            StatusView,
            Seq<char>,
        >(x@),
        r matches Ok(x) ==> fits_numbers(
            release_text(current@),
            release_text(untagged(latest@)),
            x@.update_available,
        ),
{
    let c: Release = match read_release(current) {
        Some(c) => c,
        None => {
            return Err("invalid release version: ".to_owned().concat(current));
        },
    };
    let l: Release = match parse_version(latest) {
        Ok(l) => l,
        Err(e) => {
            return Err(e);
        },
    };
    let newer: bool = is_less(&c, &l);
    proof {
        lemma_written_is_untagged(l@);
    }
    Ok(status_of(&c, &l, newer, url))
}

/// What a cached check says.
pub fn status_from_cache(current: &str, cache: &UpdateCache) -> (r: Result<UpdateStatus, String>)
    ensures
        match status_for(current@, cache@.latest_version, cache@.release_url) {
            Ok(v) => r matches Ok(x) && x@ == v,
            Err(e) => r matches Err(x) && x@ == e,
        },
        r matches Ok(x) ==> fits_numbers(
            release_text(current@),
            release_text(untagged(cache@.latest_version)),
            x@.update_available,
        ),
{
    status(current, cache.latest_version.as_str(), cache.release_url.as_str())
}

/// Whether the setting `WTX_NO_UPDATE_CHECK` turns release checks off.
pub open spec fn disables(value: Option<Seq<char>>) -> bool {
    match value {
        Some(v) => text::lowered(v) == "1"@ || text::lowered(v) == "true"@ || text::lowered(v) == "yes"@,
        None => false,
    }
}

pub fn tui_check_disabled(value: Option<&str>) -> (r: bool)
    ensures
        r == disables(util::opt_view(value)),
{
    match value {
        Some(v) => {
            let mut l: String = text::empty();
            for c in it: v.chars()
                invariant
                    it.seq() == v@,
                    l@ == text::lowered(v@).take(it.index() as int),
            {
                let ghost k = it.index() as int;
                l.push(text::char_lower(c));
                assert(text::lowered(v@).take(k + 1) =~= text::lowered(v@).take(k).push(text::lower(c)));
            }
            assert(text::lowered(v@).take(v@.len() as int) =~= text::lowered(v@));
            text::same(l.as_str(), "1") || text::same(l.as_str(), "true") || text::same(
                l.as_str(),
                "yes",
            )
        },
        None => false,
    }
}

/// The notice at the start of the interactive interface, and whether a check has to be made in
/// the background.
pub open spec fn startup(
    disabled: bool,
    cached: Option<Result<StatusView, Seq<char>>>,
) -> (Option<StatusView>, bool) {
    if disabled {
        (None, false)
    } else {
        match cached {
            Some(Ok(s)) => (if s.update_available {
                Some(s)
            } else {
                None
            }, false),
            _ => (None, true),
        }
    }
}

/// What a cache says while it is fresh.
pub open spec fn fresh_status(current: Seq<char>, cache: Option<CacheView>, now: u64) -> Option<
    Result<StatusView, Seq<char>>,
> {
    match cache {
        Some(c) => if fresh(c, now) {
            Some(status_for(current, c.latest_version, c.release_url))
        } else {
            None
        },
        None => None,
    }
}

/// What the interactive interface shows at its start, from the cache alone, without access to the
/// network, and whether it has to be refreshed.
pub fn tui_state(setting: Option<&str>, current: &str, cache: Option<&UpdateCache>, now: u64) -> (r: (
    Option<UpdateStatus>,
    bool,
))
    ensures
        match startup(
            disables(util::opt_view(setting)),
            fresh_status(current@, opt_cache(cache), now),
        ) {
            (Some(s), refresh) => r.0 matches Some(x) && x@ == s && r.1 == refresh,
            (None, refresh) => r.0 is None && r.1 == refresh,
        },
{
    if tui_check_disabled(setting) {
        return (None, false);
    }
    match cache {
        Some(c) => {
            if !cache_is_fresh(c, now) {
                return (None, true);
            }
            match status_from_cache(current, c) {
                Ok(s) => if s.update_available {
                    (Some(s), false)
                } else {
                    (None, false)
                },
                Err(_) => (None, true),
            }
        },
        None => (None, true),
    }
}

/// A finished check: what it found, and what is kept of it.
pub struct Checked {
    pub status: UpdateStatus,
    pub cache: UpdateCache,
}

/// GitHub answered that nothing has changed since the cached check, which counts anew.
pub fn not_modified(current: &str, cached: Option<UpdateCache>, now: u64) -> (r: Result<
    Checked,
    String,
>)
    ensures
        match cached {
            None => r matches Err(e) && e@ == "GitHub returned 304 without a cache"@,
            Some(c) => match status_for(current@, c@.latest_version, c@.release_url) {
                Ok(s) => r matches Ok(x) && x.status@ == s && x.cache@ == (CacheView {
                    checked_at: now,
                    ..c@
                }),
                Err(m) => r matches Err(e) && e@ == m,
            },
        },
        r matches Ok(x) ==> fits_numbers(
            release_text(current@),
            release_text(untagged(x.cache@.latest_version)),
            x.status@.update_available,
        ),
{
    match cached {
        None => Err("GitHub returned 304 without a cache".to_owned()),
        Some(c) => {
            let cache: UpdateCache = UpdateCache {
                schema_version: c.schema_version,
                checked_at: now,
                etag: c.etag,
                latest_version: c.latest_version,
                release_url: c.release_url,
            };
            match status_from_cache(current, &cache) {
                Ok(status) => Ok(Checked { status, cache }),
                Err(e) => Err(e),
            }
        },
    }
}

/// GitHub answered with its latest release.
pub fn released(current: &str, tag: &str, url: &str, etag: Option<String>, now: u64) -> (r: Result<
    Checked,
    String,
>)
    ensures
        match status_for(current@, tag@, url@) {
            Ok(s) => r matches Ok(x) && x.status@ == s && x.cache@ == (CacheView {
                schema_version: SCHEMA_VERSION,
                checked_at: now,
                etag: opt_text(etag),
                latest_version: s.latest_version,
                release_url: s.release_url,
            }),
            Err(m) => r matches Err(e) && e@ == m,
        },
        r matches Ok(x) ==> status_for(
            current@,
            x.cache@.latest_version,
            x.cache@.release_url,
        ) == Ok::<StatusView, Seq<char>>(x.status@),
        r matches Ok(x) ==> fits_numbers(
            release_text(current@),
            release_text(untagged(tag@)),
            x.status@.update_available,
        ),
{
    match status(current, tag, url) {
        Ok(status) => {
            let cache: UpdateCache = UpdateCache {
                schema_version: SCHEMA_VERSION,
                checked_at: now,
                etag,
                latest_version: status.latest_version.clone(),
                release_url: status.release_url.clone(),
            };
            Ok(Checked { status, cache })
        },
        Err(e) => Err(e),
    }
}

/// A check counts from the moment it was made until a day has passed, and not after that.
pub proof fn lemma_check_counts_for_a_day(c: CacheView, now: u64)
    requires
        c.schema_version == SCHEMA_VERSION,
        c.checked_at <= now,
    ensures
        fresh(c, now) == (now < c.checked_at + 86400),
        fresh(CacheView { checked_at: now, ..c }, now),
{
}

impl UpdateStatus {
    pub fn to_json(&self) -> (r: Json)
        ensures
            r@ == JsonView::Obj(
                seq![
                    ("schema_version"@, JsonView::Num(self@.schema_version as int)),
                    ("current_version"@, JsonView::Str(self@.current_version)),
                    ("latest_version"@, JsonView::Str(self@.latest_version)),
                    ("update_available"@, JsonView::Bool(self@.update_available)),
                    ("release_url"@, JsonView::Str(self@.release_url)),
                ],
            ),
    {
        let mut m: Vec<(String, Json)> = json::no_members();
        json::member(&mut m, "schema_version", Json::Num(self.schema_version as i64));
        json::member(&mut m, "current_version", json::string(self.current_version.as_str()));
        json::member(&mut m, "latest_version", json::string(self.latest_version.as_str()));
        json::member(&mut m, "update_available", Json::Bool(self.update_available));
        json::member(&mut m, "release_url", json::string(self.release_url.as_str()));
        assert(json::members(m@) =~= seq![
            ("schema_version"@, JsonView::Num(self@.schema_version as int)),
            ("current_version"@, JsonView::Str(self@.current_version)),
            ("latest_version"@, JsonView::Str(self@.latest_version)),
            ("update_available"@, JsonView::Bool(self@.update_available)),
            ("release_url"@, JsonView::Str(self@.release_url)),
        ]);
        json::object(m)
    }
}

/// The lines of `wtx update check`.
pub fn check_report(s: &UpdateStatus) -> (r: Vec<String>)
    ensures
        text::texts(r@) == (if s@.update_available {
            seq![
                "wtx "@ + s@.latest_version + " is available (current "@ + s@.current_version
                    + ")"@,
                "Upgrade: wtx upgrade"@,
                s@.release_url,
            ]
        } else {
            seq!["wtx "@ + s@.current_version + " is up to date"@]
        }),
{
    if s.update_available {
        let first: String = "wtx ".to_owned().concat(s.latest_version.as_str()).concat(
            " is available (current ",
        ).concat(s.current_version.as_str()).concat(")");
        plan::args3(first.as_str(), "Upgrade: wtx upgrade", s.release_url.as_str())
    } else {
        let line: String = "wtx ".to_owned().concat(s.current_version.as_str()).concat(
            " is up to date",
        );
        plan::args1(line.as_str())
    }
}

// ---------------------------------------------------------------------------
// Upgrades
// ---------------------------------------------------------------------------

/// A run of `brew` as it is shown to the user.
pub fn brew_display(args: &Vec<String>) -> (r: String)
    ensures
        r@ == "brew "@ + text::joined(text::texts(args@), " "@),
{
    let all: String = text::join(args, " ");
    "brew ".to_owned().concat(all.as_str())
}

/// The error of a silent run of `brew`: the last line of its error output, or else of its output.
pub fn brew_error(args: &Vec<String>, err: &str, out: &str) -> (r: String)
    ensures
        r@ == "`brew "@ + text::joined(text::texts(args@), " "@) + "` failed: "@
            + util::error_detail(err@, util::error_detail(out@, "Homebrew command failed"@)),
{
    let all: String = text::join(args, " ");
    let detail: String = match util::last_nonempty_line(err) {
        Some(l) => l,
        None => match util::last_nonempty_line(out) {
            Some(l) => l,
            None => "Homebrew command failed".to_owned(),
        },
    };
    "`brew ".to_owned().concat(all.as_str()).concat("` failed: ").concat(detail.as_str())
}

/// The arguments of `brew` that list the installed versions of wtx.
pub fn brew_list_args() -> (r: Vec<String>)
    ensures
        text::texts(r@) == seq!["list"@, "--versions"@, "--formula"@, HOMEBREW_FORMULA@],
{
    plan::args4("list", "--versions", "--formula", HOMEBREW_FORMULA)
}

/// The version in a word of Homebrew's listing, without a revision behind `_`.
pub open spec fn without_revision(w: Seq<char>) -> Seq<char> {
    w.take(text::find(w, '_'))
}

/// The highest version among the words; the last of them if several are equal.
pub open spec fn highest(words: Seq<Seq<char>>) -> Option<ReleaseView>
    decreases words.len(),
{
    if words.len() == 0 {
        None
    } else {
        let before = highest(words.drop_last());
        match release_text(without_revision(words.last())) {
            Some(v) => match before {
                Some(b) => if release_less(v, b) {
                    Some(b)
                } else {
                    Some(v)
                },
                None => Some(v),
            },
            None => before,
        }
    }
}

/// The version of a word is what stands before the first `_`, and the whole word without one.
pub proof fn lemma_revision_is_taken_off(v: Seq<char>, revision: Seq<char>)
    requires
        !v.contains('_'),
    ensures
        without_revision(v + "_"@ + revision) == v,
        without_revision(v) == v,
{
    reveal_strlit("_");
    let w = v + "_"@ + revision;
    assert(w =~= v.push('_') + revision);
    text::lemma_split_at_first(v, '_', revision);
    text::lemma_find(v, '_');
    assert(v.take(v.len() as int) =~= v);
}

/// The highest version is one of those in the listing, and it is found wherever there is any; one
/// more version replaces it unless it is less.
pub proof fn lemma_highest_is_installed(words: Seq<Seq<char>>, w: Seq<char>)
    ensures
        highest(words) is Some <==> exists|i: int|
            0 <= i < words.len() && release_text(without_revision(#[trigger] words[i])) is Some,
        highest(words) matches Some(v) ==> exists|i: int|
            0 <= i < words.len() && release_text(without_revision(#[trigger] words[i])) == Some(v),
        release_text(without_revision(w)) matches Some(v) ==> highest(words.push(w)) == (
        match highest(words) {
            Some(b) => if release_less(v, b) {
                Some(b)
            } else {
                Some(v)
            },
            None => Some(v),
        }),
        release_text(without_revision(w)) is None ==> highest(words.push(w)) == highest(words),
    decreases words.len(),
{
    assert(words.push(w).drop_last() =~= words);
    if words.len() > 0 {
        let f = words.drop_last();
        let k = words.len() - 1;
        lemma_highest_is_installed(f, w);
        assert(words[k] == words.last());
        assert(forall|i: int| 0 <= i < f.len() ==> f[i] == words[i]);
        if highest(f) is Some {
            let i = choose|i: int|
                0 <= i < f.len() && release_text(without_revision(#[trigger] f[i])) == highest(f);
            assert(words[i] == f[i]);
        }
        if exists|i: int|
            0 <= i < words.len() && release_text(without_revision(#[trigger] words[i])) is Some {
            let i = choose|i: int|
                0 <= i < words.len() && release_text(without_revision(#[trigger] words[i])) is Some;
            if i < k {
                assert(f[i] == words[i]);
            }
        }
    }
}

/// The numbers of versions go as numbers, the major before the minor before the patch.
pub proof fn lemma_numbers_go_in_order(a: ReleaseView, b: ReleaseView)
    ensures
        a.major < b.major ==> numbers_less(a, b),
        a.major == b.major && a.minor < b.minor ==> numbers_less(a, b),
        a.major == b.major && a.minor == b.minor ==> (numbers_less(a, b) <==> a.patch < b.patch),
        numbers_less(a, b) ==> !numbers_less(b, a),
        a.major == b.major && a.minor == b.minor && a.patch == b.patch || numbers_less(a, b)
            || numbers_less(b, a),
{
}

/// A tag is read with or without a `v` in front of it.
pub proof fn lemma_tag_is_taken_off(s: Seq<char>)
    requires
        s.len() > 0,
        s[0] != 'v',
        s[0] != 'V',
    ensures
        untagged("v"@ + s) == s,
        untagged("V"@ + s) == s,
        untagged(s) == s,
{
    reveal_strlit("v");
    reveal_strlit("V");
    assert(("v"@ + s).skip(1) =~= s);
    assert(("V"@ + s).skip(1) =~= s);
}

/// The versions that run and that were released are told as they are written, and an update is
/// available exactly if the one that runs is less; what is none of the two is an error.
pub proof fn lemma_status(current: Seq<char>, latest: Seq<char>, url: Seq<char>)
    ensures
        release_text(current) is None || release_text(untagged(latest)) is None ==> status_for(
            current,
            latest,
            url,
        ) is Err,
        release_text(current) matches Some(c) ==> release_text(untagged(latest)) matches Some(l)
            ==> {
            let s = status_for(current, latest, url);
            &&& s is Ok
            &&& s->Ok_0.current_version == written(c) && s->Ok_0.latest_version == written(l)
            &&& s->Ok_0.update_available == release_less(c, l)
            &&& s->Ok_0.release_url == url
        },
{
}

/// A release is written as its three numbers with dots between them, then its pre-release and its
/// build where it has them.
pub proof fn lemma_written(v: ReleaseView)
    ensures
        ({
            let n = text::dec(v.major as nat) + "."@ + text::dec(v.minor as nat) + "."@ + text::dec(
                v.patch as nat,
            );
            &&& v.pre.len() == 0 && v.build.len() == 0 ==> written(v) == n
            &&& v.pre.len() > 0 && v.build.len() == 0 ==> written(v) == n + "-"@ + v.pre
            &&& v.pre.len() == 0 && v.build.len() > 0 ==> written(v) == n + "+"@ + v.build
            &&& v.pre.len() > 0 && v.build.len() > 0 ==> written(v) == n + "-"@ + v.pre + "+"@
                + v.build
        }),
{
    let n = text::dec(v.major as nat) + "."@ + text::dec(v.minor as nat) + "."@ + text::dec(
        v.patch as nat,
    );
    assert(written(v) =~= n + behind("-"@, v.pre) + behind("+"@, v.build));
    assert(n + ("-"@ + v.pre) =~= n + "-"@ + v.pre);
    assert(n + ("+"@ + v.build) =~= n + "+"@ + v.build);
    assert(n + ("-"@ + v.pre) + ("+"@ + v.build) =~= n + "-"@ + v.pre + "+"@ + v.build);
}

/// A cache says something only while it counts, and then of the release that it keeps.
pub proof fn lemma_only_a_fresh_cache_speaks(current: Seq<char>, c: CacheView, now: u64)
    ensures
        fresh_status(current, None, now) is None,
        c.schema_version != 1 || now >= c.checked_at + 86400 ==> fresh_status(
            current,
            Some(c),
            now,
        ) is None,
        c.schema_version == 1 && now < c.checked_at + 86400 ==> fresh_status(current, Some(c), now)
            == Some(status_for(current, c.latest_version, c.release_url)),
{
}

/// An upgrade refreshes the metadata before it upgrades wtx, and wtx alone.
pub proof fn lemma_upgrade_is_of_wtx_alone()
    ensures
        ({
            let s = upgrading();
            &&& s.len() == 5
            &&& s[1].verb == Verb::Brew && s[1].args == seq!["update"@, "--quiet"@]
            &&& s[3].verb == Verb::Brew && s[3].args == seq![
                "upgrade"@,
                "--yes"@,
                "--formula"@,
                "rakutek/tap/wtx"@,
            ]
            &&& s[0].verb == Verb::Say && s[2].verb == Verb::Say && s[4].verb == Verb::Say
        }),
{
}

/// The words that turn checks off are `1`, `true` and `yes`, in whatever case; nothing else does.
pub proof fn lemma_setting(v: Seq<char>)
    ensures
        !disables(None),
        v.len() == 1 && v[0] == '1' ==> disables(Some(v)),
        v.len() == 4 && (v[0] == 't' || v[0] == 'T') && (v[1] == 'r' || v[1] == 'R') && (v[2]
            == 'u' || v[2] == 'U') && (v[3] == 'e' || v[3] == 'E') ==> disables(Some(v)),
        v.len() == 3 && (v[0] == 'y' || v[0] == 'Y') && (v[1] == 'e' || v[1] == 'E') && (v[2]
            == 's' || v[2] == 'S') ==> disables(Some(v)),
        v.len() != 1 && v.len() != 3 && v.len() != 4 ==> !disables(Some(v)),
        v.len() == 1 && v[0] != '1' ==> !disables(Some(v)),
{
    reveal_strlit("1");
    reveal_strlit("true");
    reveal_strlit("yes");
    let l = text::lowered(v);
    assert(l.len() == v.len());
    assert("1"@.len() == 1 && "true"@.len() == 4 && "yes"@.len() == 3);
    if v.len() == 1 {
        if v[0] == '1' {
            assert(l =~= "1"@);
        } else {
            assert(l[0] == text::lower(v[0]));
            assert("1"@[0] == '1');
        }
    }
    if v.len() == 4 && (v[0] == 't' || v[0] == 'T') && (v[1] == 'r' || v[1] == 'R') && (v[2] == 'u'
        || v[2] == 'U') && (v[3] == 'e' || v[3] == 'E') {
        assert(l =~= "true"@);
    }
    if v.len() == 3 && (v[0] == 'y' || v[0] == 'Y') && (v[1] == 'e' || v[1] == 'E') && (v[2] == 's'
        || v[2] == 'S') {
        assert(l =~= "yes"@);
    }
}

/// At the start an update is shown only from a check that counts and found one; a check is made
/// exactly where there is none that counts or it could not be read, and neither where checks are
/// turned off.
pub proof fn lemma_startup(cached: Option<Result<StatusView, Seq<char>>>)
    ensures
        startup(true, cached).0 is None && !startup(true, cached).1,
        cached matches Some(Ok(s)) ==> {
            &&& !startup(false, cached).1
            &&& s.update_available ==> startup(false, cached).0 == Some(s)
            &&& !s.update_available ==> startup(false, cached).0 is None
        },
        cached is None || cached->0 is Err ==> startup(false, cached).0 is None && startup(
            false,
            cached,
        ).1,
{
}

/// The words of Homebrew's listing behind the formula's name.
pub open spec fn installed_words(raw: Seq<char>) -> Seq<Seq<char>> {
    let w = text::words(raw);
    if w.len() == 0 {
        w
    } else {
        w.skip(1)
    }
}

/// Whether no version among the words has greater numbers.
pub open spec fn tops(v: ReleaseView, words: Seq<Seq<char>>) -> bool {
    forall|i: int|
        0 <= i < words.len() ==> (release_text(without_revision(#[trigger] words[i])) matches Some(
            w,
        ) ==> !numbers_less(v, w))
}

/// The first word of the listing is the formula's name, and all others are versions.
pub proof fn lemma_installed_words(formula: Seq<char>, versions: Seq<Seq<char>>)
    requires
        crate::gitiso::one_word(formula),
        forall|i: int|
            0 <= i < versions.len() ==> crate::gitiso::one_word(#[trigger] versions[i]),
    ensures
        installed_words(crate::gitiso::printed(seq![formula] + versions)) == versions,
{
    let all = seq![formula] + versions;
    assert forall|i: int| 0 <= i < all.len() implies crate::gitiso::one_word(#[trigger] all[i]) by {
        if i > 0 {
            assert(all[i] == versions[i - 1]);
        }
    }
    crate::gitiso::lemma_printed_names_are_read(all);
    assert(all.skip(1) =~= versions);
}

/// An upgrade is done unless what is installed is less than what was expected.
pub proof fn lemma_reached(expected: Seq<char>, listing: Seq<char>)
    ensures
        release_text(untagged(expected)) is None || highest(installed_words(listing)) is None
            ==> reached(expected, listing) is Err,
        release_text(untagged(expected)) matches Some(e) ==> highest(
            installed_words(listing),
        ) matches Some(i) ==> (reached(expected, listing) is Ok <==> !release_less(i, e)),
{
}

/// The highest version in Homebrew's listing: the formula's name, then the installed versions.
pub fn parse_brew_versions(raw: &str) -> (r: Result<Release, String>)
    ensures
        match highest(installed_words(raw@)) {
            Some(v) => r matches Ok(x) && x@ == v && release_text(written(v)) == Some(v),
            None => r matches Err(e) && e@ == "Homebrew did not report an installed wtx version"@,
        },
        r matches Ok(x) ==> tops(x@, installed_words(raw@)),
{
    let words: Vec<String> = text::split_whitespace(raw);
    let ghost all = text::texts(words@);
    if words.len() == 0 {
        assert(all.len() == 0);
        return Err("Homebrew did not report an installed wtx version".to_owned());
    }
    let ghost t = all.skip(1);
    let mut best: Option<Release> = None;
    let mut i: usize = 1;
    assert(t.take(0) =~= Seq::empty());
    while i < words.len()
        invariant
            1 <= i <= words@.len(),
            all == text::texts(words@),
            t == all.skip(1),
            best is Some == highest(t.take(i - 1)) is Some,
            best matches Some(b) ==> highest(t.take(i - 1)) == Some(b@) && release_text(
                written(b@),
            ) == Some(b@) && tops(b@, t.take(i - 1)),
            best is None ==> forall|j: int|
                0 <= j < i - 1 ==> release_text(without_revision(#[trigger] t[j])) is None,
        decreases words@.len() - i,
    {
        assert(t.take(i as int).drop_last() =~= t.take(i - 1));
        assert(t.take(i as int).last() == words@[i as int]@);
        let w: &str = words[i].as_str();
        let n: usize = text::find_char(w, '_');
        assert(w@.subrange(0, n as int) =~= w@.take(n as int));
        match read_release(w.substring_char(0, n)) {
            Some(v) => {
                match best {
                    Some(b) => {
                        if is_less(&v, &b) {
                            best = Some(b);
                        } else {
                            best = Some(v);
                        }
                    },
                    None => {
                        best = Some(v);
                    },
                }
            },
            None => {},
        }
        i += 1;
    }
    assert(t.take(i - 1) =~= t);
    match best {
        Some(b) => Ok(b),
        None => Err("Homebrew did not report an installed wtx version".to_owned()),
    }
}

/// The runs of `brew` that upgrade wtx and nothing else: the metadata first, so that the upgrade
/// does not depend on when Homebrew refreshed it last.
pub open spec fn brew_runs() -> (Seq<Seq<char>>, Seq<Seq<char>>) {
    (
        seq!["update"@, "--quiet"@],
        seq!["upgrade"@, "--yes"@, "--formula"@, HOMEBREW_FORMULA@],
    )
}

pub open spec fn upgrading() -> Seq<StepView> {
    seq![
        plan::says("Refreshing Homebrew metadata..."@),
        plan::does(Verb::Brew, brew_runs().0),
        plan::says("Upgrading wtx..."@),
        plan::does(Verb::Brew, brew_runs().1),
        plan::says("wtx upgrade complete"@),
    ]
}

/// `wtx upgrade`.
pub fn upgrade() -> (r: Vec<Step>)
    ensures
        plan::steps(r@) == upgrading(),
{
    let mut p: Vec<Step> = plan::nothing();
    plan::push(&mut p, plan::say("Refreshing Homebrew metadata..."));
    plan::push(&mut p, plan::must(Verb::Brew, plan::args2("update", "--quiet")));
    plan::push(&mut p, plan::say("Upgrading wtx..."));
    plan::push(
        &mut p,
        plan::must(Verb::Brew, plan::args4("upgrade", "--yes", "--formula", HOMEBREW_FORMULA)),
    );
    plan::push(&mut p, plan::say("wtx upgrade complete"));
    assert(plan::steps(p@) =~= upgrading());
    p
}

/// Without fresh metadata nothing is upgraded: if Homebrew's update fails, the upgrade ends with
/// its error before anything else is run.
pub proof fn lemma_upgrade_needs_metadata(errors: Seq<Option<Seq<char>>>)
    requires
        plan::possible(upgrading(), errors),
        errors[1] is Some,
    ensures
        plan::performed(upgrading(), errors) == 2,
        plan::outcome(upgrading(), errors) == Err::<(), Seq<char>>(errors[1]->0),
{
    assert(upgrading()[0].verb == Verb::Say);
    plan::lemma_plan_ends_at(upgrading(), errors, 1);
}

/// The upgrade from the interactive interface, without output. An expected version that is none
/// is refused before anything runs.
pub fn upgrade_captured(expected: &str) -> (r: Result<Vec<Step>, String>)
    ensures
        match release_text(untagged(expected@)) {
            Some(_) => r matches Ok(p) && plan::steps(p@) == seq![
                plan::does(Verb::BrewCapture, brew_runs().0),
                plan::does(Verb::BrewCapture, brew_runs().1),
            ],
            None => r matches Err(e) && e@ == "invalid release version: "@ + expected@,
        },
{
    match parse_version(expected) {
        Err(e) => Err(e),
        Ok(_) => {
            let mut p: Vec<Step> = plan::nothing();
            plan::push(&mut p, plan::must(Verb::BrewCapture, plan::args2("update", "--quiet")));
            plan::push(
                &mut p,
                plan::must(
                    Verb::BrewCapture,
                    plan::args4("upgrade", "--yes", "--formula", HOMEBREW_FORMULA),
                ),
            );
            assert(plan::steps(p@) =~= seq![
                plan::does(Verb::BrewCapture, brew_runs().0),
                plan::does(Verb::BrewCapture, brew_runs().1),
            ]);
            Ok(p)
        },
    }
}

/// Whether an upgrade reached the expected version, from Homebrew's listing of installed ones.
pub open spec fn reached(expected: Seq<char>, listing: Seq<char>) -> Result<(), Seq<char>> {
    match release_text(untagged(expected)) {
        None => Err("invalid release version: "@ + expected),
        Some(e) => match highest(installed_words(listing)) {
            None => Err("Homebrew did not report an installed wtx version"@),
            Some(i) => if release_less(i, e) {
                Err(
                    "Homebrew installed wtx "@ + written(i) + ", but "@ + written(e)
                        + " is available; retry after the tap updates"@,
                )
            } else {
                Ok(())
            },
        },
    }
}

/// An upgrade is done where the installed numbers are those expected or greater ones, and not
/// where they are smaller.
pub fn verify_upgrade(expected: &str, listing: &str) -> (r: Result<(), String>)
    ensures
        match reached(expected@, listing@) {
            Ok(_) => r is Ok,
            Err(e) => r matches Err(x) && x@ == e,
        },
        match (highest(installed_words(listing@)), release_text(untagged(expected@))) {
            (Some(i), Some(e)) => {
                &&& numbers_less(i, e) ==> r is Err
                &&& numbers_less(e, i) || e == i ==> r is Ok
            },
            _ => r is Err,
        },
{
    let e: Release = match parse_version(expected) {
        Ok(v) => v,
        Err(m) => {
            return Err(m);
        },
    };
    let i: Release = match parse_brew_versions(listing) {
        Ok(v) => v,
        Err(m) => {
            return Err(m);
        },
    };
    if is_less(&i, &e) {
        let a: String = i.text();
        let b: String = e.text();
        return Err(
            "Homebrew installed wtx ".to_owned().concat(a.as_str()).concat(", but ").concat(
                b.as_str(),
            ).concat(" is available; retry after the tap updates"),
        );
    }
    Ok(())
}

} // verus!
