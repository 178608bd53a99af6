//! The sweep of orphaned VMs that goes with the preparation of a VM.
//!
//! A VM whose working directory is gone is stopped when a sweep first sees it, and deleted by a
//! sweep after a time in which it can be recovered.
use vstd::prelude::*;

use crate::inspect::{self, Instance, InstanceView};
use crate::path;
use crate::table;
use crate::text;
use crate::update;
use crate::util;

verus! {

/// The time between two sweeps: an hour.
pub const INTERVAL_SECS: u64 = 3600;

/// The time in which an orphaned VM can be recovered: seven days.
pub const RECOVERY_SECS: u64 = 604800;

/// The file that keeps the time of the last sweep and the marks.
pub fn sweep_path(home: &str) -> (r: String)
    ensures
        r@ == path::below(util::home_of(home@), "orphan-sweep.json"@),
{
    path::join(util::wtx_home(home).as_str(), "orphan-sweep.json")
}

/// What a sweep depends on.
pub struct SweepFacts<'a> {
    pub rows: &'a Vec<Instance>,
    /// When VMs were first seen orphaned, in seconds.
    pub marks: &'a Vec<(String, u64)>,
    /// The VMs with a git directory of their own.
    pub legacy: &'a Vec<String>,
    /// The VM that is being prepared and the one that it is seeded from.
    pub exempt: &'a Vec<String>,
    pub now: u64,
}

pub struct FactsView {
    pub rows: Seq<InstanceView>,
    pub marks: Seq<(Seq<char>, u64)>,
    pub legacy: Seq<Seq<char>>,
    pub exempt: Seq<Seq<char>>,
    pub now: u64,
}

impl<'a> View for SweepFacts<'a> {
    type V = FactsView;

    open spec fn view(&self) -> FactsView {
        FactsView {
            rows: inspect::instances(self.rows@),
            marks: table::rows(self.marks@),
            legacy: text::texts(self.legacy@),
            exempt: text::texts(self.exempt@),
            now: self.now,
        }
    }
}

/// What a sweep does with a VM.
#[derive(Clone, Copy, PartialEq, Eq, Structural, Debug)]
pub enum Fate {
    Leave,
    /// Mark it as seen, and stop it if it runs.
    Observe,
    Delete,
}

/// The fate of a VM. One with a git directory of its own is stopped like every other, but never
/// deleted.
pub open spec fn fate(f: FactsView, x: InstanceView) -> Fate {
    if !x.orphaned || f.exempt.contains(x.name) {
        Fate::Leave
    } else {
        match table::lookup(f.marks, x.name) {
            None => Fate::Observe,
            Some(since) => if f.now - since >= RECOVERY_SECS && !f.legacy.contains(x.name) {
                Fate::Delete
            } else {
                Fate::Leave
            },
        }
    }
}

/// The names of the VMs of a fate.
pub open spec fn of_fate(f: FactsView, rows: Seq<InstanceView>, which: Fate) -> Seq<Seq<char>>
    decreases rows.len(),
{
    if rows.len() == 0 {
        Seq::empty()
    } else if fate(f, rows.last()) == which {
        of_fate(f, rows.drop_last(), which).push(rows.last().name)
    } else {
        of_fate(f, rows.drop_last(), which)
    }
}

/// The names of the VMs that are stopped: they run, and are seen orphaned for the first time.
pub open spec fn stopped(f: FactsView, rows: Seq<InstanceView>) -> Seq<Seq<char>>
    decreases rows.len(),
{
    if rows.len() == 0 {
        Seq::empty()
    } else if fate(f, rows.last()) == Fate::Observe && rows.last().status == "Running"@ {
        stopped(f, rows.drop_last()).push(rows.last().name)
    } else {
        stopped(f, rows.drop_last())
    }
}

/// Whether a VM of the name is listed as orphaned.
pub open spec fn listed_orphan(rows: Seq<InstanceView>, name: Seq<char>) -> bool {
    exists|i: int| 0 <= i < rows.len() && (#[trigger] rows[i]).name == name && rows[i].orphaned
}

/// The names whose marks go: their working directories returned, or they are no longer there.
pub open spec fn cleared(rows: Seq<InstanceView>, marks: Seq<(Seq<char>, u64)>) -> Seq<Seq<char>>
    decreases marks.len(),
{
    if marks.len() == 0 {
        Seq::empty()
    } else if listed_orphan(rows, marks.last().0) {
        cleared(rows, marks.drop_last())
    } else {
        cleared(rows, marks.drop_last()).push(marks.last().0)
    }
}

/// The marks that stay.
pub open spec fn lasting(rows: Seq<InstanceView>, marks: Seq<(Seq<char>, u64)>) -> Seq<
    (Seq<char>, u64),
>
    decreases marks.len(),
{
    if marks.len() == 0 {
        marks
    } else if listed_orphan(rows, marks.last().0) {
        lasting(rows, marks.drop_last()).push(marks.last())
    } else {
        lasting(rows, marks.drop_last())
    }
}

pub open spec fn marked_at(names: Seq<Seq<char>>, now: u64) -> Seq<(Seq<char>, u64)> {
    Seq::new(names.len(), |i: int| (names[i], now))
}

/// The marks after a sweep: those that stay, and one for each VM that was seen for the first time.
pub open spec fn marks_after(f: FactsView) -> Seq<(Seq<char>, u64)> {
    lasting(f.rows, f.marks) + marked_at(of_fate(f, f.rows, Fate::Observe), f.now)
}

/// Whether a sweep is due: `WTX_NO_AUTO_PRUNE` does not forbid it, and the last one was an hour
/// ago or more.
pub open spec fn due(last: Option<u64>, now: u64, setting: Option<Seq<char>>) -> bool {
    !update::disables(setting) && match last {
        Some(t) => now - t >= INTERVAL_SECS,
        None => true,
    }
}

/// The decisions of a sweep.
pub struct Sweep {
    pub stop: Vec<String>,
    pub delete: Vec<String>,
    pub unmark: Vec<String>,
    /// The marks to keep.
    pub marks: Vec<(String, u64)>,
}

fn decide(f: &SweepFacts, x: &Instance) -> (r: Fate)
    ensures
        r == fate(f@, x@),
{
    if !x.orphaned || text::list_contains(f.exempt, x.name.as_str()) {
        return Fate::Leave;
    }
    match table::get(f.marks, x.name.as_str()) {
        None => Fate::Observe,
        Some(since) => {
            let since: u64 = *since;
            if f.now >= since && f.now - since >= RECOVERY_SECS && !text::list_contains(
                f.legacy,
                x.name.as_str(),
            ) {
                Fate::Delete
            } else {
                Fate::Leave
            }
        },
    }
}

fn is_listed_orphan(rows: &Vec<Instance>, name: &str) -> (r: bool)
    ensures
        r == listed_orphan(inspect::instances(rows@), name@),
{
    let ghost t = inspect::instances(rows@);
    let mut i: usize = 0;
    while i < rows.len()
        invariant
            i <= rows@.len(),
            t == inspect::instances(rows@),
            forall|j: int| 0 <= j < i ==> !((#[trigger] t[j]).name == name@ && t[j].orphaned),
        decreases rows@.len() - i,
    {
        assert(t[i as int] == rows@[i as int]@);
        if rows[i].orphaned && text::same(rows[i].name.as_str(), name) {
            return true;
        }
        i += 1;
    }
    false
}

fn push_mark(marks: &mut Vec<(String, u64)>, name: &str, at: u64)
    ensures
        table::rows(final(marks)@) == table::rows(old(marks)@).push((name@, at)),
{
    marks.push((name.to_owned(), at));
    assert(table::rows(marks@) =~= table::rows(old(marks)@).push((name@, at)));
}

/// The marks that go, and those that stay.
fn review_marks(rows: &Vec<Instance>, marks: &Vec<(String, u64)>) -> (r: (
    Vec<String>,
    Vec<(String, u64)>,
))
    ensures
        text::texts(r.0@) == cleared(inspect::instances(rows@), table::rows(marks@)),
        table::rows(r.1@) == lasting(inspect::instances(rows@), table::rows(marks@)),
{
    let ghost t = inspect::instances(rows@);
    let ghost m = table::rows(marks@);
    let mut gone: Vec<String> = Vec::new();
    let mut kept: Vec<(String, u64)> = Vec::new();
    let mut i: usize = 0;
    assert(m.take(0) =~= Seq::empty());
    assert(text::texts(gone@) =~= Seq::empty());
    assert(table::rows(kept@) =~= Seq::empty());
    while i < marks.len()
        invariant
            i <= marks@.len(),
            t == inspect::instances(rows@),
            m == table::rows(marks@),
            text::texts(gone@) == cleared(t, m.take(i as int)),
            table::rows(kept@) == lasting(t, m.take(i as int)),
        decreases marks@.len() - i,
    {
        assert(m.take(i + 1).drop_last() =~= m.take(i as int));
        assert(m.take(i + 1).last() == m[i as int]);
        if is_listed_orphan(rows, marks[i].0.as_str()) {
            push_mark(&mut kept, marks[i].0.as_str(), marks[i].1);
        } else {
            text::push_text(&mut gone, marks[i].0.as_str());
        }
        i += 1;
    }
    assert(m.take(i as int) =~= m);
    (gone, kept)
}

/// Decide about a sweep; `None` if none is due. `last` is the time of the last one, and `setting`
/// the value of `WTX_NO_AUTO_PRUNE`.
pub fn sweep(f: &SweepFacts, last: Option<u64>, setting: Option<&str>) -> (r: Option<Sweep>)
    ensures
        r is Some == due(last, f.now, util::opt_view(setting)),
        r matches Some(x) ==> {
            &&& text::texts(x.stop@) == stopped(f@, f@.rows)
            &&& text::texts(x.delete@) == of_fate(f@, f@.rows, Fate::Delete)
            &&& text::texts(x.unmark@) == cleared(f@.rows, f@.marks)
            &&& table::rows(x.marks@) == marks_after(f@)
        },
{
    if update::tui_check_disabled(setting) {
        return None;
    }
    match last {
        Some(t) => {
            if f.now < t || f.now - t < INTERVAL_SECS {
                return None;
            }
        },
        None => {},
    }
    let ghost v = f@;
    let ghost t = v.rows;
    let (unmark, mut marks) = review_marks(f.rows, f.marks);
    let ghost kept = table::rows(marks@);
    let mut stop: Vec<String> = Vec::new();
    let mut delete: Vec<String> = Vec::new();
    let mut i: usize = 0;
    assert(t.take(0) =~= Seq::empty());
    assert(text::texts(stop@) =~= Seq::empty());
    assert(text::texts(delete@) =~= Seq::empty());
    assert(kept + marked_at(of_fate(v, t.take(0), Fate::Observe), v.now) =~= kept);
    while i < f.rows.len()
        invariant
            i <= f.rows@.len(),
            v == f@,
            t == v.rows,
            text::texts(stop@) == stopped(v, t.take(i as int)),
            text::texts(delete@) == of_fate(v, t.take(i as int), Fate::Delete),
            table::rows(marks@) == kept + marked_at(
                of_fate(v, t.take(i as int), Fate::Observe),
                v.now,
            ),
        decreases f.rows@.len() - i,
    {
        assert(t.take(i + 1).drop_last() =~= t.take(i as int));
        assert(t.take(i + 1).last() == f.rows@[i as int]@);
        let x: &Instance = &f.rows[i];
        match decide(f, x) {
            Fate::Leave => {},
            Fate::Observe => {
                push_mark(&mut marks, x.name.as_str(), f.now);
                assert(table::rows(marks@) =~= kept + marked_at(
                    of_fate(v, t.take(i + 1), Fate::Observe),
                    v.now,
                ));
                if text::same(x.status.as_str(), "Running") {
                    text::push_text(&mut stop, x.name.as_str());
                }
            },
            Fate::Delete => {
                text::push_text(&mut delete, x.name.as_str());
            },
        }
        i += 1;
    }
    assert(t.take(i as int) =~= t);
    Some(Sweep { stop, delete, unmark, marks })
}

// ---------------------------------------------------------------------------
// Laws
// ---------------------------------------------------------------------------

/// Sweeps are at least an hour apart, and the setting turns them off.
pub proof fn lemma_sweeps_are_rare(last: u64, now: u64, setting: Option<Seq<char>>)
    ensures
        due(Some(last), now, setting) ==> now >= last + 3600,
        update::disables(setting) ==> !due(Some(last), now, setting) && !due(None, now, setting),
{
}

/// A sweep is due after an hour and where there was none before, unless the setting forbids it.
pub proof fn lemma_sweep_is_due(last: u64, now: u64, setting: Option<Seq<char>>)
    requires
        !update::disables(setting),
    ensures
        due(None, now, setting),
        now >= last + 3600 ==> due(Some(last), now, setting),
{
}

/// Exactly the marks of VMs that are listed as orphaned stay, each with its own time, and the names
/// of all others are told.
pub proof fn lemma_marks_of_orphans_stay(rows: Seq<InstanceView>, marks: Seq<(Seq<char>, u64)>)
    ensures
        lasting(rows, marks) == marks.filter(|m: (Seq<char>, u64)| listed_orphan(rows, m.0)),
        cleared(rows, marks).len() == marks.filter(
            |m: (Seq<char>, u64)| !listed_orphan(rows, m.0),
        ).len(),
        forall|i: int|
            0 <= i < cleared(rows, marks).len() ==> #[trigger] cleared(rows, marks)[i]
                == marks.filter(|m: (Seq<char>, u64)| !listed_orphan(rows, m.0))[i].0,
    decreases marks.len(),
{
    reveal(Seq::filter);
    if marks.len() > 0 {
        lemma_marks_of_orphans_stay(rows, marks.drop_last());
    }
}

/// A VM that is seen for the first time is marked with the time of the sweep.
pub proof fn lemma_new_marks_bear_the_time(f: FactsView, k: int)
    requires
        lasting(f.rows, f.marks).len() <= k < marks_after(f).len(),
    ensures
        marks_after(f)[k].1 == f.now,
        marks_after(f).take(lasting(f.rows, f.marks).len() as int) == lasting(f.rows, f.marks),
        marks_after(f).len() == lasting(f.rows, f.marks).len() + of_fate(
            f,
            f.rows,
            Fate::Observe,
        ).len(),
{
    let l = lasting(f.rows, f.marks);
    assert(marks_after(f).take(l.len() as int) =~= l);
}

proof fn lemma_of_fate(f: FactsView, rows: Seq<InstanceView>, which: Fate, name: Seq<char>)
    ensures
        of_fate(f, rows, which).contains(name) ==> exists|i: int|
            0 <= i < rows.len() && (#[trigger] rows[i]).name == name && fate(f, rows[i]) == which,
        stopped(f, rows).contains(name) ==> exists|i: int|
            0 <= i < rows.len() && (#[trigger] rows[i]).name == name && fate(f, rows[i])
                == Fate::Observe && rows[i].status == "Running"@,
    decreases rows.len(),
{
    if rows.len() > 0 {
        let g = rows.drop_last();
        lemma_of_fate(f, g, which, name);
        assert(rows[rows.len() - 1] == rows.last());
        if of_fate(f, rows, which).contains(name) && !(rows.last().name == name && fate(
            f,
            rows.last(),
        ) == which) {
            let all = of_fate(f, rows, which);
            let k = choose|k: int| 0 <= k < all.len() && all[k] == name;
            assert(of_fate(f, g, which)[k] == name);
            let i = choose|i: int|
                0 <= i < g.len() && (#[trigger] g[i]).name == name && fate(f, g[i]) == which;
            assert(rows[i] == g[i]);
        }
        if stopped(f, rows).contains(name) && !(rows.last().name == name && fate(f, rows.last())
            == Fate::Observe && rows.last().status == "Running"@) {
            let all = stopped(f, rows);
            let k = choose|k: int| 0 <= k < all.len() && all[k] == name;
            assert(stopped(f, g)[k] == name);
            let i = choose|i: int|
                0 <= i < g.len() && (#[trigger] g[i]).name == name && fate(f, g[i]) == Fate::Observe
                    && g[i].status == "Running"@;
            assert(rows[i] == g[i]);
        }
    }
}

/// A sweep deletes a VM only if its working directory is gone, it was marked seven days ago or
/// more, its commits are on the host, and it is neither being prepared nor the source of a clone.
/// It stops a VM only if its working directory is gone, it was never marked, and it is no such VM
/// either.
pub proof fn lemma_sweep_is_safe(f: FactsView, name: Seq<char>)
    ensures
        of_fate(f, f.rows, Fate::Delete).contains(name) ==> {
            &&& listed_orphan(f.rows, name)
            &&& table::lookup(f.marks, name) matches Some(since) && f.now >= since + 604800
            &&& !f.legacy.contains(name)
            &&& !f.exempt.contains(name)
        },
        stopped(f, f.rows).contains(name) ==> {
            &&& listed_orphan(f.rows, name)
            &&& table::lookup(f.marks, name) is None
            &&& !f.exempt.contains(name)
        },
{
    lemma_of_fate(f, f.rows, Fate::Delete, name);
}

proof fn lemma_fate_is_met(f: FactsView, rows: Seq<InstanceView>, i: int)
    requires
        0 <= i < rows.len(),
    ensures
        of_fate(f, rows, fate(f, rows[i])).contains(rows[i].name),
        fate(f, rows[i]) == Fate::Observe && rows[i].status == "Running"@ ==> stopped(
            f,
            rows,
        ).contains(rows[i].name),
    decreases rows.len(),
{
    let which = fate(f, rows[i]);
    let name = rows[i].name;
    let g = rows.drop_last();
    let chosen = of_fate(f, rows, which);
    let halted = stopped(f, rows);
    if i < g.len() {
        assert(g[i] == rows[i]);
        lemma_fate_is_met(f, g, i);
        let before = of_fate(f, g, which);
        let k = choose|k: int| 0 <= k < before.len() && before[k] == name;
        assert(chosen[k] == name);
        if stopped(f, g).contains(name) {
            let k = choose|k: int| 0 <= k < stopped(f, g).len() && stopped(f, g)[k] == name;
            assert(halted[k] == name);
        }
    } else {
        assert(chosen.last() == name);
        if which == Fate::Observe && rows[i].status == "Running"@ {
            assert(halted.last() == name);
        }
    }
}

/// Nothing is overlooked: a sweep marks and stops every orphaned VM that it sees for the first
/// time, and deletes every one whose time has passed, but for the exempt and, from deletion, those
/// with a git directory of their own.
pub proof fn lemma_sweep_is_complete(f: FactsView, i: int)
    requires
        0 <= i < f.rows.len(),
        f.rows[i].orphaned,
        !f.exempt.contains(f.rows[i].name),
    ensures
        table::lookup(f.marks, f.rows[i].name) is None ==> {
            &&& marks_after(f).contains((f.rows[i].name, f.now))
            &&& f.rows[i].status == "Running"@ ==> stopped(f, f.rows).contains(f.rows[i].name)
        },
        table::lookup(f.marks, f.rows[i].name) matches Some(since) ==> f.now >= since + 604800
            && !f.legacy.contains(f.rows[i].name) ==> of_fate(f, f.rows, Fate::Delete).contains(
            f.rows[i].name,
        ),
{
    lemma_fate_is_met(f, f.rows, i);
    if fate(f, f.rows[i]) == Fate::Observe {
        let seen = of_fate(f, f.rows, Fate::Observe);
        let k = choose|k: int| 0 <= k < seen.len() && seen[k] == f.rows[i].name;
        let kept = lasting(f.rows, f.marks);
        assert(marks_after(f)[kept.len() + k] == (f.rows[i].name, f.now));
    }
}

proof fn lemma_lasting(rows: Seq<InstanceView>, marks: Seq<(Seq<char>, u64)>, k: int)
    requires
        0 <= k < lasting(rows, marks).len(),
    ensures
        listed_orphan(rows, lasting(rows, marks)[k].0),
    decreases marks.len(),
{
    if marks.len() > 0 {
        let before = lasting(rows, marks.drop_last());
        if k < before.len() {
            lemma_lasting(rows, marks.drop_last(), k);
        }
    }
}

/// Every mark after a sweep is that of a VM that is orphaned still: the mark of one whose working
/// directory returned is gone, and its time starts anew if it is orphaned again.
pub proof fn lemma_return_clears_the_mark(f: FactsView, name: Seq<char>, k: int)
    requires
        !listed_orphan(f.rows, name),
        0 <= k < marks_after(f).len(),
    ensures
        marks_after(f)[k].0 != name,
{
    let kept = lasting(f.rows, f.marks);
    if k < kept.len() {
        lemma_lasting(f.rows, f.marks, k);
    } else {
        let seen = of_fate(f, f.rows, Fate::Observe);
        assert(seen[k - kept.len()] == marks_after(f)[k].0);
        assert(seen.contains(marks_after(f)[k].0));
        lemma_of_fate(f, f.rows, Fate::Observe, marks_after(f)[k].0);
    }
}

/// The marks without those of a name.
pub open spec fn forgotten(marks: Seq<(Seq<char>, u64)>, name: Seq<char>) -> Seq<(Seq<char>, u64)>
    decreases marks.len(),
{
    if marks.len() == 0 {
        marks
    } else if marks.last().0 == name {
        forgotten(marks.drop_last(), name)
    } else {
        forgotten(marks.drop_last(), name).push(marks.last())
    }
}

/// Take a VM's mark off: the VM was deleted, or its working directory is there again.
pub fn forget_mark(marks: &Vec<(String, u64)>, name: &str) -> (r: Vec<(String, u64)>)
    ensures
        table::rows(r@) == forgotten(table::rows(marks@), name@),
{
    let ghost m = table::rows(marks@);
    let mut kept: Vec<(String, u64)> = Vec::new();
    let mut i: usize = 0;
    assert(m.take(0) =~= Seq::empty());
    assert(table::rows(kept@) =~= Seq::empty());
    while i < marks.len()
        invariant
            i <= marks@.len(),
            m == table::rows(marks@),
            table::rows(kept@) == forgotten(m.take(i as int), name@),
        decreases marks@.len() - i,
    {
        assert(m.take(i + 1).drop_last() =~= m.take(i as int));
        assert(m.take(i + 1).last() == m[i as int]);
        if !text::same(marks[i].0.as_str(), name) {
            push_mark(&mut kept, marks[i].0.as_str(), marks[i].1);
        }
        i += 1;
    }
    assert(m.take(i as int) =~= m);
    kept
}

proof fn lemma_lookup_pushed(
    marks: Seq<(Seq<char>, u64)>,
    x: (Seq<char>, u64),
    name: Seq<char>,
)
    ensures
        table::lookup(marks.push(x), name) == (match table::lookup(marks, name) {
            Some(t) => Some(t),
            None => if x.0 == name {
                Some(x.1)
            } else {
                None
            },
        }),
    decreases marks.len(),
{
    let all = marks.push(x);
    if marks.len() == 0 {
        assert(all.skip(1) =~= marks);
    } else {
        lemma_lookup_pushed(marks.skip(1), x, name);
        assert(all.skip(1) =~= marks.skip(1).push(x));
    }
}

proof fn lemma_lookup_forgotten(
    marks: Seq<(Seq<char>, u64)>,
    name: Seq<char>,
    other: Seq<char>,
)
    ensures
        table::lookup(forgotten(marks, name), name) is None,
        other != name ==> table::lookup(forgotten(marks, name), other) == table::lookup(
            marks,
            other,
        ),
    decreases marks.len(),
{
    if marks.len() > 0 {
        let f = marks.drop_last();
        lemma_lookup_forgotten(f, name, other);
        assert(marks =~= f.push(marks.last()));
        lemma_lookup_pushed(f, marks.last(), other);
        lemma_lookup_pushed(forgotten(f, name), marks.last(), name);
        lemma_lookup_pushed(forgotten(f, name), marks.last(), other);
    }
}

/// A mark does not outlive its VM: once it is forgotten none is left, and a VM of that name that is
/// orphaned later is seen for the first time, stopped and given the whole time for its recovery. The
/// marks of other VMs stay as they are.
pub proof fn lemma_forgotten_mark_starts_anew(f: FactsView, x: InstanceView, other: Seq<char>)
    requires
        x.orphaned,
        !f.exempt.contains(x.name),
    ensures
        table::lookup(forgotten(f.marks, x.name), x.name) is None,
        fate(FactsView { marks: forgotten(f.marks, x.name), ..f }, x) == Fate::Observe,
        other != x.name ==> table::lookup(forgotten(f.marks, x.name), other) == table::lookup(
            f.marks,
            other,
        ),
{
    lemma_lookup_forgotten(f.marks, x.name, other);
}

// ---------------------------------------------------------------------------
// Notices
// ---------------------------------------------------------------------------

/// The notice about a VM that a sweep stopped, or could not stop. One with a git directory of its
/// own waits for the user.
pub fn stop_notice(name: &str, legacy: bool, error: Option<&str>) -> (r: String)
    ensures
        r@ == match error {
            None => "wtx: stopped orphaned VM "@ + name@ + (if legacy {
                " (its commits may exist only inside it; inspect it, then remove it)"@
            } else {
                " (its worktree is gone; it is deleted after 7 days)"@
            }),
            Some(e) => "wtx: warning: orphaned VM "@ + name@ + " not stopped: "@ + e@,
        },
{
    match error {
        None => {
            let why: &str = if legacy {
                " (its commits may exist only inside it; inspect it, then remove it)"
            } else {
                " (its worktree is gone; it is deleted after 7 days)"
            };
            "wtx: stopped orphaned VM ".to_owned().concat(name).concat(why)
        },
        Some(e) => "wtx: warning: orphaned VM ".to_owned().concat(name).concat(
            " not stopped: ",
        ).concat(e),
    }
}

/// The notice about a VM that a sweep deleted, or could not delete.
pub fn delete_notice(name: &str, error: Option<&str>) -> (r: String)
    ensures
        r@ == match error {
            None => "wtx: deleted orphaned VM "@ + name@,
            Some(e) => "wtx: warning: orphaned VM "@ + name@ + " not deleted: "@ + e@,
        },
{
    match error {
        None => "wtx: deleted orphaned VM ".to_owned().concat(name),
        Some(e) => "wtx: warning: orphaned VM ".to_owned().concat(name).concat(
            " not deleted: ",
        ).concat(e),
    }
}

} // verus!
