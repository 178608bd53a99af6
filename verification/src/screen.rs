//! What the interactive console shows.
//!
//! A frame is the text of the console with an ink for each piece of it. Which colours the inks
//! have, and where the pieces go on a terminal, is up to the surrounding program.
use vstd::prelude::*;

use crate::inspect::{self, Instance, InstanceView};
use crate::path;
use crate::table;
use crate::text;
use crate::tui::{App, AppView, Confirm, ConfirmView, Op, Row, RowView};
use crate::util;

verus! {

pub const W_NAME: usize = 24;

pub const W_STATUS: usize = 14;

pub const W_BRANCH: usize = 16;

pub const W_SIM: usize = 12;

pub const HELP: &'static str = " j/k:move  Enter:shell/fold  s:start/stop  d:delete  u:upgrade  Space:fold  r:refresh  q:quit";

/// What stands in the list while there is no VM.
pub const EMPTY_LIST: &'static str = "No VMs yet.\nCreate one with:  wtx up NAME WORKDIR";

// ---------------------------------------------------------------------------
// Fitting text into columns
// ---------------------------------------------------------------------------

/// The number of terminal columns of a character; `None` for a control character.
pub uninterp spec fn char_width(c: char) -> Option<usize>;

/// `unicode_width::UnicodeWidthChar::width`: the display width of a character, at most three
/// columns. It depends on the character alone; a printable ASCII character takes one column, and
/// exactly the control characters have no width.
#[verifier::external_body]
fn width_of_char(c: char) -> (r: Option<usize>)
    ensures
        r == char_width(c),
        r matches Some(n) ==> n <= 3,
        r is None == ((c as u32) < 0x20 || 0x7f <= (c as u32) < 0xa0),
        0x20 <= (c as u32) < 0x7f ==> r == Some(1usize),
{
    unicode_width::UnicodeWidthChar::width(c)
}

/// The columns of each character of a text.
pub open spec fn columns(s: Seq<char>) -> Seq<usize> {
    Seq::new(
        s.len(),
        |i: int|
            match char_width(s[i]) {
                Some(n) => n,
                None => 0,
            },
    )
}

pub open spec fn total(cols: Seq<usize>) -> nat
    decreases cols.len(),
{
    if cols.len() == 0 {
        0
    } else {
        total(cols.drop_last()) + cols.last() as nat
    }
}

/// How many characters from `i` on fit, one after the other, where `used` columns are taken and
/// `limit` are there.
pub open spec fn fitting(cols: Seq<usize>, i: int, used: nat, limit: nat) -> int
    decreases cols.len() - i,
{
    if i >= cols.len() || used + cols[i] > limit {
        i
    } else {
        fitting(cols, i + 1, used + cols[i] as nat, limit)
    }
}

pub open spec fn minus(a: nat, b: nat) -> nat {
    if a >= b {
        (a - b) as nat
    } else {
        0
    }
}

/// A text of `w` columns in a column of the given width: filled up with spaces, or cut off with
/// `…` behind what fits.
pub open spec fn fitted(s: Seq<char>, w: nat, cols: Seq<usize>, width: nat) -> Seq<char> {
    if w <= width {
        s + text::spaces((width - w) as nat)
    } else {
        let k = fitting(cols, 0, 0, minus(width, 1));
        s.take(k) + "…"@ + text::spaces(minus(width, total(cols.take(k)) + 1))
    }
}

/// Fit a text whose width, and the widths of whose characters, are given.
pub fn fit_measured(s: &str, w: usize, cols: &Vec<usize>, width: usize) -> (r: String)
    requires
        cols@.len() == s@.len(),
    ensures
        r@ == fitted(s@, w as nat, cols@, width as nat),
{
    if w <= width {
        let fill: String = text::spaces_of(width - w);
        return s.to_owned().concat(fill.as_str());
    }
    let limit: usize = if width >= 1 { width - 1 } else { 0 };
    let mut k: usize = 0;
    let mut used: usize = 0;
    assert(cols@.take(0) =~= Seq::empty());
    while k < cols.len() && cols[k] <= limit - used
        invariant
            k <= cols@.len(),
            cols@.len() == s@.len(),
            used <= limit,
            used == total(cols@.take(k as int)),
            fitting(cols@, 0, 0, limit as nat) == fitting(
                cols@,
                k as int,
                used as nat,
                limit as nat,
            ),
        decreases cols@.len() - k,
    {
        assert(cols@.take(k + 1).drop_last() =~= cols@.take(k as int));
        assert(cols@.take(k + 1).last() == cols@[k as int]);
        used += cols[k];
        k += 1;
    }
    let pad: usize = if width > used { width - used - 1 } else { 0 };
    let fill: String = text::spaces_of(pad);
    assert(s@.subrange(0, k as int) =~= s@.take(k as int));
    s.substring_char(0, k).to_owned().concat("…").concat(fill.as_str())
}

fn measure(s: &str) -> (r: Vec<usize>)
    ensures
        r@ == columns(s@),
{
    let mut cols: Vec<usize> = Vec::new();
    for c in it: s.chars()
        invariant
            it.seq() == s@,
            cols@ == columns(s@).take(it.index() as int),
    {
        let ghost k = it.index() as int;
        let n: usize = match width_of_char(c) {
            Some(n) => n,
            None => 0,
        };
        cols.push(n);
        assert(columns(s@).take(k + 1) =~= columns(s@).take(k).push(n));
    }
    assert(columns(s@).take(s@.len() as int) =~= columns(s@));
    cols
}

/// A text in a column of the given width.
pub open spec fn column(s: Seq<char>, width: nat) -> Seq<char> {
    fitted(s, util::str_width(s), columns(s), width)
}

/// Fit a text into a column by display width.
pub fn fit(s: &str, width: usize) -> (r: String)
    ensures
        r@ == column(s@, width as nat),
        util::str_width(s@) <= width ==> util::str_width(r@) == width,
{
    let w: usize = util::width_of(s);
    let cols: Vec<usize> = measure(s);
    fit_measured(s, w, &cols, width)
}

proof fn lemma_fitting(cols: Seq<usize>, i: int, used: nat, limit: nat)
    requires
        0 <= i <= cols.len(),
        used == total(cols.take(i)),
        used <= limit,
    ensures
        i <= fitting(cols, i, used, limit) <= cols.len(),
        total(cols.take(fitting(cols, i, used, limit))) <= limit,
        fitting(cols, i, used, limit) < cols.len() ==> total(
            cols.take(fitting(cols, i, used, limit) + 1),
        ) > limit,
    decreases cols.len() - i,
{
    if i < cols.len() {
        assert(cols.take(i + 1).drop_last() =~= cols.take(i));
        assert(cols.take(i + 1).last() == cols[i]);
        if used + cols[i] <= limit {
            lemma_fitting(cols, i + 1, used + cols[i] as nat, limit);
        }
    }
}

/// A text that is cut off fills its column exactly: what is kept, one column for `…` and the
/// spaces add up to the width; and one character more would not have fitted.
pub proof fn lemma_cut_fills_the_column(s: Seq<char>, w: nat, cols: Seq<usize>, width: nat)
    requires
        cols.len() == s.len(),
        w > width,
        width > 0,
    ensures
        ({
            let k = fitting(cols, 0, 0, minus(width, 1));
            &&& 0 <= k <= s.len()
            &&& total(cols.take(k)) + 1 + minus(width, total(cols.take(k)) + 1) == width
            &&& k < s.len() ==> total(cols.take(k + 1)) + 1 > width
        }),
{
    assert(cols.take(0) =~= Seq::empty());
    lemma_fitting(cols, 0, 0, minus(width, 1));
}

// ---------------------------------------------------------------------------
// Frames
// ---------------------------------------------------------------------------

/// How a piece of text is drawn.
#[derive(Clone, Copy, PartialEq, Eq, Structural, Debug)]
pub enum Ink {
    Plain,
    /// The name of the program.
    Brand,
    Bold,
    Heading,
    Faint,
    Notice,
    Good,
    Bad,
    /// Bad, and in need of attention.
    Alarm,
}

pub struct Piece {
    pub text: String,
    pub ink: Ink,
}

pub open spec fn pieces_view(v: Seq<Piece>) -> Seq<(Seq<char>, Ink)> {
    Seq::new(v.len(), |i: int| (v[i].text@, v[i].ink))
}

pub open spec fn lines_view(v: Seq<Vec<Piece>>) -> Seq<Seq<(Seq<char>, Ink)>> {
    Seq::new(v.len(), |i: int| pieces_view(v[i]@))
}

fn put(v: &mut Vec<Piece>, text: String, ink: Ink)
    ensures
        pieces_view(final(v)@) == pieces_view(old(v)@).push((text@, ink)),
{
    v.push(Piece { text, ink });
    assert(pieces_view(v@) =~= pieces_view(old(v)@).push((text@, ink)));
}

fn no_pieces() -> (r: Vec<Piece>)
    ensures
        pieces_view(r@) == Seq::<(Seq<char>, Ink)>::empty(),
{
    let r: Vec<Piece> = Vec::new();
    assert(pieces_view(r@) =~= Seq::<(Seq<char>, Ink)>::empty());
    r
}

/// A question over the console.
pub struct Modal {
    pub title: String,
    pub lines: Vec<Vec<Piece>>,
    pub width: u16,
    pub height: u16,
    /// The ink of its border.
    pub ink: Ink,
}

pub struct ModalView {
    pub title: Seq<char>,
    pub lines: Seq<Seq<(Seq<char>, Ink)>>,
    pub width: u16,
    pub height: u16,
    pub ink: Ink,
}

impl View for Modal {
    type V = ModalView;

    open spec fn view(&self) -> ModalView {
        ModalView {
            title: self.title@,
            lines: lines_view(self.lines@),
            width: self.width,
            height: self.height,
            ink: self.ink,
        }
    }
}

/// Everything on the screen.
pub struct Frame {
    pub title: Vec<Piece>,
    pub header: String,
    /// The rows of the list; none if there is no VM.
    pub rows: Vec<Vec<Piece>>,
    pub detail: String,
    pub status: String,
    pub status_ink: Ink,
    pub modal: Option<Modal>,
}

pub struct FrameView {
    pub title: Seq<(Seq<char>, Ink)>,
    pub header: Seq<char>,
    pub rows: Seq<Seq<(Seq<char>, Ink)>>,
    pub detail: Seq<char>,
    pub status: Seq<char>,
    pub status_ink: Ink,
    pub modal: Option<ModalView>,
}

impl View for Frame {
    type V = FrameView;

    open spec fn view(&self) -> FrameView {
        FrameView {
            title: pieces_view(self.title@),
            header: self.header@,
            rows: lines_view(self.rows@),
            detail: self.detail@,
            status: self.status@,
            status_ink: self.status_ink,
            modal: match self.modal {
                Some(m) => Some(m@),
                None => None,
            },
        }
    }
}

/// The milliseconds from one time to a later one.
pub open spec fn elapsed(now: u64, since: u64) -> nat {
    minus(now as nat, since as nat)
}

/// The picture of a running operation.
pub open spec fn spinner_at(ms: nat) -> Seq<char> {
    let k = (ms / 120) % 10;
    if k == 0 {
        "⠋"@
    } else if k == 1 {
        "⠙"@
    } else if k == 2 {
        "⠹"@
    } else if k == 3 {
        "⠸"@
    } else if k == 4 {
        "⠼"@
    } else if k == 5 {
        "⠴"@
    } else if k == 6 {
        "⠦"@
    } else if k == 7 {
        "⠧"@
    } else if k == 8 {
        "⠇"@
    } else {
        "⠏"@
    }
}

fn spinner(ms: u64) -> (r: &'static str)
    ensures
        r@ == spinner_at(ms as nat),
{
    let k: u64 = (ms / 120) % 10;
    if k == 0 {
        "⠋"
    } else if k == 1 {
        "⠙"
    } else if k == 2 {
        "⠹"
    } else if k == 3 {
        "⠸"
    } else if k == 4 {
        "⠼"
    } else if k == 5 {
        "⠴"
    } else if k == 6 {
        "⠦"
    } else if k == 7 {
        "⠧"
    } else if k == 8 {
        "⠇"
    } else {
        "⠏"
    }
}

fn since(now: u64, start: u64) -> (r: u64)
    ensures
        r == elapsed(now, start),
{
    if now >= start {
        now - start
    } else {
        0
    }
}

/// A path with `~` for the home directory.
pub open spec fn compacted(p: Seq<char>, home: Option<Seq<char>>) -> Seq<char> {
    match home {
        Some(h) => text::replaced_once(p, h, "~"@),
        None => p,
    }
}

pub fn compact_path(p: &str, home: Option<&str>) -> (r: String)
    ensures
        r@ == compacted(p@, util::opt_view(home)),
{
    match home {
        Some(h) => text::replace_once(p, h, "~"),
        None => p.to_owned(),
    }
}

// ---------------------------------------------------------------------------
// Rows
// ---------------------------------------------------------------------------

pub open spec fn group_label(key: Seq<char>, home: Option<Seq<char>>) -> Seq<char> {
    if key.len() == 0 {
        "(no project)"@
    } else {
        (match path::name_of(key) {
            Some(n) => n,
            None => Seq::empty(),
        }) + "  "@ + compacted(key, home)
    }
}

pub open spec fn group_line(
    a: AppView,
    key: Seq<char>,
    vms: nat,
    running: nat,
    home: Option<Seq<char>>,
) -> Seq<(Seq<char>, Ink)> {
    seq![
        (
            (if a.collapsed.contains(key) {
                "▸"@
            } else {
                "▾"@
            }) + " "@ + group_label(key, home),
            Ink::Heading,
        ),
        (
            "  ["@ + text::dec(running) + "/"@ + text::dec(vms) + " running]"@,
            Ink::Faint,
        ),
    ]
}

pub open spec fn status_ink(status: Seq<char>) -> Ink {
    if status == "Running"@ {
        Ink::Good
    } else if status == "Stopped"@ {
        Ink::Faint
    } else {
        Ink::Notice
    }
}

pub open spec fn sim_ink(state: Seq<char>) -> Ink {
    if state == "Booted"@ {
        Ink::Good
    } else if state == "Shutdown"@ {
        Ink::Faint
    } else {
        Ink::Notice
    }
}

pub open spec fn op_text(op: Op, ms: nat) -> Seq<char> {
    spinner_at(ms) + " "@ + op.text() + " "@ + text::dec(ms / 1000) + "s"@
}

pub open spec fn status_piece(a: AppView, x: InstanceView, now: u64) -> (Seq<char>, Ink) {
    match table::lookup(a.in_flight, x.name) {
        Some((op, start)) => (
            column(op_text(op, elapsed(now, start)), W_STATUS as nat),
            Ink::Notice,
        ),
        None => (column(x.status, W_STATUS as nat), status_ink(x.status)),
    }
}

pub open spec fn sim_piece(a: AppView, x: InstanceView) -> (Seq<char>, Ink) {
    if x.sim_udid.len() == 0 {
        (text::spaces(W_SIM as nat), Ink::Plain)
    } else {
        let state = inspect::state_in(a.sim_states, x.sim_udid);
        (column("sim:"@ + state, W_SIM as nat), sim_ink(state))
    }
}

pub open spec fn vm_line(a: AppView, x: InstanceView, now: u64) -> Seq<(Seq<char>, Ink)> {
    seq![
        ("  "@ + column(x.name, W_NAME as nat), Ink::Plain),
        status_piece(a, x, now),
        (column(x.branch, W_BRANCH as nat), Ink::Plain),
        sim_piece(a, x),
    ] + (if x.orphaned {
        seq![("orphaned"@, Ink::Alarm)]
    } else {
        Seq::empty()
    }) + (if x.recovering {
        seq![(" recovering"@, Ink::Notice)]
    } else {
        Seq::empty()
    }) + (if x.legacy_git {
        seq![(" legacy-git"@, Ink::Alarm)]
    } else {
        Seq::empty()
    })
}

/// A row of the list.
pub open spec fn row_line(a: AppView, r: RowView, now: u64, home: Option<Seq<char>>) -> Seq<
    (Seq<char>, Ink),
> {
    match r {
        RowView::Group { key, vms, running } => group_line(a, key, vms, running, home),
        RowView::Vm(x) => vm_line(a, x, now),
    }
}

fn render_group(app: &App, key: &str, vms: usize, running: usize, home: Option<&str>) -> (r: Vec<
    Piece,
>)
    ensures
        pieces_view(r@) == group_line(
            app@,
            key@,
            vms as nat,
            running as nat,
            util::opt_view(home),
        ),
{
    let mark: &str = if text::list_contains(&app.collapsed, key) { "▸" } else { "▾" };
    let label: String = if key.is_empty() {
        "(no project)".to_owned()
    } else {
        let name: String = match path::file_name(key) {
            Some(n) => n,
            None => text::empty(),
        };
        let short: String = compact_path(key, home);
        name.concat("  ").concat(short.as_str())
    };
    let mut v: Vec<Piece> = no_pieces();
    put(&mut v, mark.to_owned().concat(" ").concat(label.as_str()), Ink::Heading);
    let a: String = text::dec_of(running as u64);
    let b: String = text::dec_of(vms as u64);
    put(
        &mut v,
        "  [".to_owned().concat(a.as_str()).concat("/").concat(b.as_str()).concat(" running]"),
        Ink::Faint,
    );
    assert(pieces_view(v@) =~= group_line(
        app@,
        key@,
        vms as nat,
        running as nat,
        util::opt_view(home),
    ));
    v
}

fn render_vm(app: &App, x: &Instance, now: u64) -> (r: Vec<Piece>)
    ensures
        pieces_view(r@) == vm_line(app@, x@, now),
{
    let mut v: Vec<Piece> = no_pieces();
    let name: String = fit(x.name.as_str(), W_NAME);
    put(&mut v, "  ".to_owned().concat(name.as_str()), Ink::Plain);
    match table::get(&app.in_flight, x.name.as_str()) {
        Some(flight) => {
            let op: Op = flight.0;
            let ms: u64 = since(now, flight.1);
            let s: String = text::dec_of(ms / 1000);
            let line: String = spinner(ms).to_owned().concat(" ").concat(op.name()).concat(
                " ",
            ).concat(s.as_str()).concat("s");
            put(&mut v, fit(line.as_str(), W_STATUS), Ink::Notice);
        },
        None => {
            let ink: Ink = if text::same(x.status.as_str(), "Running") {
                Ink::Good
            } else if text::same(x.status.as_str(), "Stopped") {
                Ink::Faint
            } else {
                Ink::Notice
            };
            put(&mut v, fit(x.status.as_str(), W_STATUS), ink);
        },
    }
    put(&mut v, fit(x.branch.as_str(), W_BRANCH), Ink::Plain);
    if x.sim_udid.as_str().is_empty() {
        put(&mut v, text::spaces_of(W_SIM), Ink::Plain);
    } else {
        let state: &str = match table::get_text(&app.sim_states, x.sim_udid.as_str()) {
            Some(s) => s,
            None => "missing",
        };
        let ink: Ink = if text::same(state, "Booted") {
            Ink::Good
        } else if text::same(state, "Shutdown") {
            Ink::Faint
        } else {
            Ink::Notice
        };
        let label: String = "sim:".to_owned().concat(state);
        put(&mut v, fit(label.as_str(), W_SIM), ink);
    }
    if x.orphaned {
        put(&mut v, "orphaned".to_owned(), Ink::Alarm);
    }
    if x.recovering {
        put(&mut v, " recovering".to_owned(), Ink::Notice);
    }
    if x.legacy_git {
        put(&mut v, " legacy-git".to_owned(), Ink::Alarm);
    }
    assert(pieces_view(v@) =~= vm_line(app@, x@, now));
    v
}

/// A row of the list.
pub fn render_row(app: &App, row: &Row, now: u64, home: Option<&str>) -> (r: Vec<Piece>)
    ensures
        pieces_view(r@) == row_line(app@, row@, now, util::opt_view(home)),
{
    match row {
        Row::Group { key, vms, running } => render_group(app, key.as_str(), *vms, *running, home),
        Row::Vm(x) => render_vm(app, x, now),
    }
}

// ---------------------------------------------------------------------------
// The rest of the screen
// ---------------------------------------------------------------------------

/// The notice in the title: an upgrade under way, or one that is possible.
pub open spec fn notice(a: AppView, now: u64) -> Seq<(Seq<char>, Ink)> {
    match a.upgrading {
        Some((version, start)) => seq![
            (
                "  "@ + spinner_at(elapsed(now, start)) + " upgrading to v"@ + version + " ("@
                    + text::dec(elapsed(now, start) / 1000) + "s)"@,
                Ink::Notice,
            ),
        ],
        None => match a.update_available {
            Some(u) => seq![
                (
                    "  ↑ v"@ + u.latest_version + " available — press u to upgrade"@,
                    Ink::Notice,
                ),
            ],
            None => Seq::empty(),
        },
    }
}

pub open spec fn title_line(a: AppView, now: u64) -> Seq<(Seq<char>, Ink)> {
    seq![(" wtx "@, Ink::Brand)] + notice(a, now) + seq![
        ("  "@, Ink::Plain),
        (a.mirror_line, Ink::Faint),
    ] + (if a.refreshing {
        seq![("  ⟳"@, Ink::Faint)]
    } else {
        Seq::empty()
    })
}

fn render_title(app: &App, now: u64) -> (r: Vec<Piece>)
    ensures
        pieces_view(r@) == title_line(app@, now),
{
    let mut v: Vec<Piece> = no_pieces();
    put(&mut v, " wtx ".to_owned(), Ink::Brand);
    match &app.upgrading {
        Some((version, start)) => {
            let ms: u64 = since(now, *start);
            let s: String = text::dec_of(ms / 1000);
            let line: String = "  ".to_owned().concat(spinner(ms)).concat(" upgrading to v").concat(
                version.as_str(),
            ).concat(" (").concat(s.as_str()).concat("s)");
            put(&mut v, line, Ink::Notice);
        },
        None => match &app.update_available {
            Some(u) => {
                let line: String = "  ↑ v".to_owned().concat(u.latest_version.as_str()).concat(
                    " available — press u to upgrade",
                );
                put(&mut v, line, Ink::Notice);
            },
            None => {},
        },
    }
    put(&mut v, "  ".to_owned(), Ink::Plain);
    put(&mut v, app.mirror_line.clone(), Ink::Faint);
    if app.refreshing {
        put(&mut v, "  ⟳".to_owned(), Ink::Faint);
    }
    assert(pieces_view(v@) =~= title_line(app@, now));
    v
}

pub open spec fn header_text() -> Seq<char> {
    "    "@ + column("NAME"@, W_NAME as nat) + column("STATUS"@, W_STATUS as nat) + column(
        "BRANCH"@,
        W_BRANCH as nat,
    ) + column("SIM"@, W_SIM as nat) + "NOTE"@
}

fn render_header() -> (r: String)
    ensures
        r@ == header_text(),
{
    let a: String = fit("NAME", W_NAME);
    let b: String = fit("STATUS", W_STATUS);
    let c: String = fit("BRANCH", W_BRANCH);
    let d: String = fit("SIM", W_SIM);
    "    ".to_owned().concat(a.as_str()).concat(b.as_str()).concat(c.as_str()).concat(
        d.as_str(),
    ).concat("NOTE")
}

pub open spec fn vm_detail(a: AppView, x: InstanceView, now: u64) -> Seq<char> {
    "workdir : "@ + x.workdir + "\nrepo    : "@ + (if x.repo.len() == 0 {
        "-"@
    } else {
        x.repo
    }) + (if x.sim_udid.len() == 0 {
        Seq::empty()
    } else {
        "\nsim     : "@ + x.sim_udid + " ("@ + inspect::state_in(a.sim_states, x.sim_udid) + ")"@
    }) + (match table::lookup(a.in_flight, x.name) {
        Some((op, start)) => "\nop      : "@ + op.text() + " in progress ("@ + text::dec(
            elapsed(now, start) / 1000,
        ) + "s)"@,
        None => Seq::empty(),
    }) + (if !x.orphaned {
        Seq::empty()
    } else if x.legacy_git {
        "\nORPHANED: the worktree is gone"@
    } else {
        "\nORPHANED: the worktree is gone (commits are on the host; delete when done)"@
    }) + (if x.recovering {
        "\nrecovery: "@ + inspect::RECOVERING@
    } else {
        Seq::empty()
    }) + (if x.legacy_git {
        "\ngit     : "@ + inspect::LEGACY_GIT@
    } else {
        Seq::empty()
    })
}

pub open spec fn group_detail(key: Seq<char>, vms: nat, running: nat) -> Seq<char> {
    if key.len() == 0 {
        "VMs not tied to a repository: "@ + text::dec(vms) + " ("@ + text::dec(running)
            + " running)"@
    } else {
        "project : "@ + key + "\nVMs     : "@ + text::dec(vms) + " ("@ + text::dec(running)
            + " running)\nnew VM  : wtx up <name> <worktree>"@
    }
}

/// What is told of the selected row.
pub open spec fn detail_text(a: AppView, now: u64) -> Seq<char> {
    match crate::tui::row_at(a.rows, a.selected) {
        Some(RowView::Vm(x)) => vm_detail(a, x, now),
        Some(RowView::Group { key, vms, running }) => group_detail(key, vms, running),
        None => "No VMs yet. Create one with `wtx up NAME WORKDIR`"@,
    }
}

fn render_vm_detail(app: &App, x: &Instance, now: u64) -> (r: String)
    ensures
        r@ == vm_detail(app@, x@, now),
{
    let repo: &str = if x.repo.as_str().is_empty() { "-" } else { x.repo.as_str() };
    let sim: String = if x.sim_udid.as_str().is_empty() {
        text::empty()
    } else {
        let state: &str = match table::get_text(&app.sim_states, x.sim_udid.as_str()) {
            Some(s) => s,
            None => "missing",
        };
        "\nsim     : ".to_owned().concat(x.sim_udid.as_str()).concat(" (").concat(state).concat(")")
    };
    let op: String = match table::get(&app.in_flight, x.name.as_str()) {
        Some(flight) => {
            let s: String = text::dec_of(since(now, flight.1) / 1000);
            "\nop      : ".to_owned().concat(flight.0.name()).concat(" in progress (").concat(
                s.as_str(),
            ).concat("s)")
        },
        None => text::empty(),
    };
    let orphan: String = if !x.orphaned {
        text::empty()
    } else if x.legacy_git {
        "\nORPHANED: the worktree is gone".to_owned()
    } else {
        "\nORPHANED: the worktree is gone (commits are on the host; delete when done)".to_owned()
    };
    let recovery: String = if x.recovering {
        "\nrecovery: ".to_owned().concat(inspect::RECOVERING)
    } else {
        text::empty()
    };
    let git: String = if x.legacy_git {
        "\ngit     : ".to_owned().concat(inspect::LEGACY_GIT)
    } else {
        text::empty()
    };
    "workdir : ".to_owned().concat(x.workdir.as_str()).concat("\nrepo    : ").concat(repo).concat(
        sim.as_str(),
    ).concat(op.as_str()).concat(orphan.as_str()).concat(recovery.as_str()).concat(git.as_str())
}

fn render_detail(app: &App, now: u64) -> (r: String)
    ensures
        r@ == detail_text(app@, now),
{
    match app.selected_row() {
        Some(Row::Vm(x)) => render_vm_detail(app, x, now),
        Some(Row::Group { key, vms, running }) => {
            let n: String = text::dec_of(*vms as u64);
            let m: String = text::dec_of(*running as u64);
            if key.as_str().is_empty() {
                "VMs not tied to a repository: ".to_owned().concat(n.as_str()).concat(" (").concat(
                    m.as_str(),
                ).concat(" running)")
            } else {
                "project : ".to_owned().concat(key.as_str()).concat("\nVMs     : ").concat(
                    n.as_str(),
                ).concat(" (").concat(m.as_str()).concat(
                    " running)\nnew VM  : wtx up <name> <worktree>",
                )
            }
        },
        None => "No VMs yet. Create one with `wtx up NAME WORKDIR`".to_owned(),
    }
}

pub open spec fn plain_line(s: Seq<char>) -> Seq<(Seq<char>, Ink)> {
    seq![(s, Ink::Plain)]
}

/// The question that waits for an answer.
pub open spec fn modal_of(c: ConfirmView) -> ModalView {
    match c {
        ConfirmView::Delete(name) => ModalView {
            title: " confirm delete "@,
            lines: seq![
                plain_line(""@),
                seq![(" Delete "@, Ink::Plain), (name, Ink::Bold), (" ?"@, Ink::Plain)],
                plain_line(" Its databases and images go with it."@),
                plain_line(""@),
                seq![(" y = delete    any other key = cancel"@, Ink::Faint)],
            ],
            width: 64,
            height: 7,
            ink: Ink::Bad,
        },
        ConfirmView::Upgrade(version) => ModalView {
            title: " confirm upgrade "@,
            lines: seq![
                plain_line(""@),
                seq![
                    (" Upgrade wtx to "@, Ink::Plain),
                    ("v"@ + version, Ink::Bold),
                    (" ?"@, Ink::Plain),
                ],
                plain_line(" Homebrew metadata and the wtx formula will be updated."@),
                plain_line(""@),
                seq![(" y = upgrade    any other key = cancel"@, Ink::Faint)],
            ],
            width: 68,
            height: 7,
            ink: Ink::Notice,
        },
    }
}

fn one_piece(s: &str, ink: Ink) -> (r: Vec<Piece>)
    ensures
        pieces_view(r@) == seq![(s@, ink)],
{
    let mut v: Vec<Piece> = no_pieces();
    put(&mut v, s.to_owned(), ink);
    assert(pieces_view(v@) =~= seq![(s@, ink)]);
    v
}

fn question(before: &str, what: String) -> (r: Vec<Piece>)
    ensures
        pieces_view(r@) == seq![(before@, Ink::Plain), (what@, Ink::Bold), (" ?"@, Ink::Plain)],
{
    let mut v: Vec<Piece> = no_pieces();
    let ghost w = what@;
    put(&mut v, before.to_owned(), Ink::Plain);
    put(&mut v, what, Ink::Bold);
    put(&mut v, " ?".to_owned(), Ink::Plain);
    assert(pieces_view(v@) =~= seq![(before@, Ink::Plain), (w, Ink::Bold), (" ?"@, Ink::Plain)]);
    v
}

fn five_lines(
    a: Vec<Piece>,
    b: Vec<Piece>,
    c: Vec<Piece>,
    d: Vec<Piece>,
    e: Vec<Piece>,
) -> (r: Vec<Vec<Piece>>)
    ensures
        lines_view(r@) == seq![
            pieces_view(a@),
            pieces_view(b@),
            pieces_view(c@),
            pieces_view(d@),
            pieces_view(e@),
        ],
{
    let r: Vec<Vec<Piece>> = vec![a, b, c, d, e];
    assert(lines_view(r@) =~= seq![
        pieces_view(a@),
        pieces_view(b@),
        pieces_view(c@),
        pieces_view(d@),
        pieces_view(e@),
    ]);
    r
}

fn render_modal(c: &Confirm) -> (r: Modal)
    ensures
        r@ == modal_of(c@),
{
    match c {
        Confirm::Delete(name) => Modal {
            title: " confirm delete ".to_owned(),
            lines: five_lines(
                one_piece("", Ink::Plain),
                question(" Delete ", name.clone()),
                one_piece(" Its databases and images go with it.", Ink::Plain),
                one_piece("", Ink::Plain),
                one_piece(" y = delete    any other key = cancel", Ink::Faint),
            ),
            width: 64,
            height: 7,
            ink: Ink::Bad,
        },
        Confirm::Upgrade(version) => Modal {
            title: " confirm upgrade ".to_owned(),
            lines: five_lines(
                one_piece("", Ink::Plain),
                question(" Upgrade wtx to ", "v".to_owned().concat(version.as_str())),
                one_piece(" Homebrew metadata and the wtx formula will be updated.", Ink::Plain),
                one_piece("", Ink::Plain),
                one_piece(" y = upgrade    any other key = cancel", Ink::Faint),
            ),
            width: 68,
            height: 7,
            ink: Ink::Notice,
        },
    }
}

/// Everything that the console shows.
pub open spec fn frame_of(a: AppView, now: u64, home: Option<Seq<char>>) -> FrameView {
    FrameView {
        title: title_line(a, now),
        header: header_text(),
        rows: Seq::new(a.rows.len(), |i: int| row_line(a, a.rows[i], now, home)),
        detail: detail_text(a, now),
        status: " "@ + a.status,
        status_ink: if a.status_err {
            Ink::Bad
        } else {
            Ink::Plain
        },
        modal: match a.confirm {
            Some(c) => Some(modal_of(c)),
            None => None,
        },
    }
}

/// The console shows every row in its place: a heading with its project and its counts, and a VM with
/// its name, its status or the operation on it, its branch and its device, and with what is wrong
/// with it; and below them what is told of the selected row and the last message.
pub proof fn lemma_every_row_is_drawn(a: AppView, now: u64, home: Option<Seq<char>>, i: int)
    ensures
        ({
            let f = frame_of(a, now, home);
            &&& f.rows.len() == a.rows.len()
            &&& f.status == " "@ + a.status
            &&& f.status_ink == Ink::Bad <==> a.status_err
            &&& f.modal is Some <==> a.confirm is Some
            &&& (crate::tui::row_at(a.rows, a.selected) matches Some(RowView::Vm(x))
                ==> text::has_prefix(f.detail, "workdir : "@ + x.workdir))
        }),
        0 <= i < a.rows.len() ==> {
            let l = frame_of(a, now, home).rows[i];
            &&& (a.rows[i] matches RowView::Vm(x) ==> {
                &&& l.len() >= 4
                &&& l[0].0 == "  "@ + column(x.name, W_NAME as nat)
                &&& table::lookup(a.in_flight, x.name) is None ==> l[1].0 == column(
                    x.status,
                    W_STATUS as nat,
                )
                &&& (table::lookup(a.in_flight, x.name) matches Some(o) ==> l[1].0 == column(
                    op_text(o.0, elapsed(now, o.1)),
                    W_STATUS as nat,
                ))
                &&& l[2].0 == column(x.branch, W_BRANCH as nat)
                &&& x.sim_udid.len() > 0 ==> l[3].0 == column(
                    "sim:"@ + inspect::state_in(a.sim_states, x.sim_udid),
                    W_SIM as nat,
                )
                &&& x.orphaned ==> l[4] == ("orphaned"@, Ink::Alarm)
                &&& l.len() == 4 + (if x.orphaned {
                    1int
                } else {
                    0
                }) + (if x.recovering {
                    1int
                } else {
                    0
                }) + (if x.legacy_git {
                    1int
                } else {
                    0
                })
                &&& x.legacy_git ==> l.last() == (" legacy-git"@, Ink::Alarm)
            })
            &&& (a.rows[i] matches RowView::Group { key, vms, running } ==> {
                &&& l.len() == 2
                &&& a.collapsed.contains(key) ==> l[0].0 == "▸"@ + " "@ + group_label(key, home)
                &&& !a.collapsed.contains(key) ==> l[0].0 == "▾"@ + " "@ + group_label(key, home)
                &&& l[1].0 == "  ["@ + text::dec(running) + "/"@ + text::dec(vms) + " running]"@
            })
        },
{
    match crate::tui::row_at(a.rows, a.selected) {
        Some(RowView::Vm(x)) => {
            let p = "workdir : "@ + x.workdir;
            assert(vm_detail(a, x, now).take(p.len() as int) =~= p);
        },
        _ => {},
    }
}

/// A question names what it is about: the VM that would be deleted, or the version of an upgrade.
pub proof fn lemma_question_names_its_subject(name: Seq<char>)
    ensures
        modal_of(ConfirmView::Delete(name)).lines[1][0].0 == " Delete "@,
        modal_of(ConfirmView::Delete(name)).lines[1][1].0 == name,
        modal_of(ConfirmView::Upgrade(name)).lines[1][0].0 == " Upgrade wtx to "@,
        modal_of(ConfirmView::Upgrade(name)).lines[1][1].0 == "v"@ + name,
{
}

/// A path below the home directory is written with `~` in place of it, and the rest of it stays.
pub proof fn lemma_home_is_written_short(home: Seq<char>, rest: Seq<char>)
    ensures
        compacted(home + rest, Some(home)) == "~"@ + rest,
        compacted(rest, None) == rest,
{
    let p = home + rest;
    assert(p.subrange(0, home.len() as int) =~= home);
    assert(text::stands_at(p, home, 0));
    assert(p.skip(home.len() as int) =~= rest);
    assert(p.take(0) + "~"@ + p.skip(home.len() as int) =~= "~"@ + rest);
}

/// Draw the console: its text, with an ink for each piece.
pub fn draw(app: &App, now: u64, home: Option<&str>) -> (r: Frame)
    ensures
        r@ == frame_of(app@, now, util::opt_view(home)),
{
    let ghost a = app@;
    let ghost h = util::opt_view(home);
    let ghost all = Seq::new(a.rows.len(), |i: int| row_line(a, a.rows[i], now, h));
    let mut rows: Vec<Vec<Piece>> = Vec::new();
    let mut i: usize = 0;
    assert(lines_view(rows@) =~= all.take(0));
    while i < app.rows.len()
        invariant
            i <= app.rows@.len(),
            a == app@,
            h == util::opt_view(home),
            all == Seq::new(a.rows.len(), |i: int| row_line(a, a.rows[i], now, h)),
            lines_view(rows@) == all.take(i as int),
        decreases app.rows@.len() - i,
    {
        let ghost before = lines_view(rows@);
        let line: Vec<Piece> = render_row(app, &app.rows[i], now, home);
        assert(a.rows[i as int] == app.rows@[i as int]@);
        rows.push(line);
        assert(lines_view(rows@) =~= before.push(all[i as int]));
        assert(all.take(i + 1) =~= all.take(i as int).push(all[i as int]));
        i += 1;
    }
    assert(all.take(i as int) =~= all);
    let modal: Option<Modal> = match &app.confirm {
        Some(c) => Some(render_modal(c)),
        None => None,
    };
    Frame {
        title: render_title(app, now),
        header: render_header(),
        rows,
        detail: render_detail(app, now),
        status: " ".to_owned().concat(app.status.as_str()),
        status_ink: if app.status_err { Ink::Bad } else { Ink::Plain },
        modal,
    }
}

// ---------------------------------------------------------------------------
// Places
// ---------------------------------------------------------------------------

/// A rectangle on the terminal.
#[derive(Clone, Copy, PartialEq, Eq, Structural, Debug)]
pub struct Area {
    pub x: u16,
    pub y: u16,
    pub width: u16,
    pub height: u16,
}

impl Area {
    /// Whether the rectangle ends where coordinates do not overflow.
    pub open spec fn ends(self) -> bool {
        self.x + self.width <= u16::MAX && self.y + self.height <= u16::MAX
    }

    pub open spec fn holds(self, other: Area) -> bool {
        &&& self.x <= other.x
        &&& self.y <= other.y
        &&& other.x + other.width <= self.x + self.width
        &&& other.y + other.height <= self.y + self.height
    }
}

pub open spec fn half_beyond(space: u16, size: u16) -> int {
    (if space >= size {
        space - size
    } else {
        0
    }) / 2
}

pub open spec fn least(a: u16, b: u16) -> u16 {
    if a <= b {
        a
    } else {
        b
    }
}

/// A rectangle of the given size in the middle of an area, as far as it fits.
pub fn centered(w: u16, h: u16, area: Area) -> (r: Area)
    requires
        area.ends(),
    ensures
        r.x == area.x + half_beyond(area.width, w),
        r.y == area.y + half_beyond(area.height, h),
        r.width == least(w, area.width),
        r.height == least(h, area.height),
        area.holds(r),
{
    let dx: u16 = if area.width >= w { (area.width - w) / 2 } else { 0 };
    let dy: u16 = if area.height >= h { (area.height - h) / 2 } else { 0 };
    Area {
        x: area.x + dx,
        y: area.y + dy,
        width: if w <= area.width { w } else { area.width },
        height: if h <= area.height { h } else { area.height },
    }
}

/// The two lines in the middle of an empty list.
pub fn empty_message_area(inner: Area) -> (r: Area)
    requires
        inner.ends(),
    ensures
        r.x == inner.x,
        r.y == inner.y + half_beyond(inner.height, 2),
        r.width == inner.width,
        r.height == least(2, inner.height),
        inner.holds(r),
{
    let dy: u16 = if inner.height >= 2 { (inner.height - 2) / 2 } else { 0 };
    Area {
        x: inner.x,
        y: inner.y + dy,
        width: inner.width,
        height: if inner.height >= 2 { 2 } else { inner.height },
    }
}

} // verus!
