//! The state of the interactive console: VMs grouped by project, a selection, and operations
//! that run in the background.
//!
//! Nothing here touches the terminal. Keys and messages change the state and yield effects for
//! the surrounding program; times are milliseconds on a clock that it keeps.
use vstd::prelude::*;

use crate::inspect::{self, Instance, InstanceView};
use crate::mirror::{self, EntryView, MirrorEntry};
use crate::table;
use crate::text;
use crate::update::{StatusView, UpdateStatus};

verus! {

// ---------------------------------------------------------------------------
// State
// ---------------------------------------------------------------------------

/// A project heading or one of its VMs.
pub enum Row {
    Group {
        key: String,
        vms: usize,
        running: usize,
    },
    Vm(Instance),
}

pub enum RowView {
    Group {
        key: Seq<char>,
        vms: nat,
        running: nat,
    },
    Vm(InstanceView),
}

impl View for Row {
    type V = RowView;

    open spec fn view(&self) -> RowView {
        match self {
            Row::Group { key, vms, running } => RowView::Group {
                key: key@,
                vms: *vms as nat,
                running: *running as nat,
            },
            Row::Vm(i) => RowView::Vm(i@),
        }
    }
}

pub open spec fn rows_view(v: Seq<Row>) -> Seq<RowView> {
    Seq::new(v.len(), |i: int| v[i]@)
}

/// An action that waits for confirmation.
pub enum Confirm {
    Delete(String),
    Upgrade(String),
}

pub enum ConfirmView {
    Delete(Seq<char>),
    Upgrade(Seq<char>),
}

impl View for Confirm {
    type V = ConfirmView;

    open spec fn view(&self) -> ConfirmView {
        match self {
            Confirm::Delete(n) => ConfirmView::Delete(n@),
            Confirm::Upgrade(v) => ConfirmView::Upgrade(v@),
        }
    }
}

/// An operation on a VM.
#[derive(Clone, Copy, PartialEq, Eq, Structural, Debug)]
pub enum Op {
    Start,
    Stop,
    Delete,
}

impl Op {
    pub open spec fn text(self) -> Seq<char> {
        match self {
            Op::Start => "start"@,
            Op::Stop => "stop"@,
            Op::Delete => "delete"@,
        }
    }

    pub fn name(&self) -> (r: &'static str)
        ensures
            r@ == self.text(),
    {
        match self {
            Op::Start => "start",
            Op::Stop => "stop",
            Op::Delete => "delete",
        }
    }
}

/// Work for the surrounding program.
pub enum Effect {
    /// Collect the state in the background.
    Refresh,
    /// Run an operation in the background.
    Operate(String, Op),
    /// Upgrade wtx in the background.
    Upgrade(String),
    /// Open a shell on a VM in place of the console.
    Shell(String),
    /// Erase what a child process wrote.
    Clear,
    Quit,
}

pub enum EffectView {
    Refresh,
    Operate(Seq<char>, Op),
    Upgrade(Seq<char>),
    Shell(Seq<char>),
    Clear,
    Quit,
}

impl View for Effect {
    type V = EffectView;

    open spec fn view(&self) -> EffectView {
        match self {
            Effect::Refresh => EffectView::Refresh,
            Effect::Operate(n, op) => EffectView::Operate(n@, *op),
            Effect::Upgrade(v) => EffectView::Upgrade(v@),
            Effect::Shell(n) => EffectView::Shell(n@),
            Effect::Clear => EffectView::Clear,
            Effect::Quit => EffectView::Quit,
        }
    }
}

pub open spec fn effects_view(v: Seq<Effect>) -> Seq<EffectView> {
    Seq::new(v.len(), |i: int| v[i]@)
}

pub struct App {
    pub instances: Vec<Instance>,
    pub rows: Vec<Row>,
    /// The keys of the projects that are folded.
    pub collapsed: Vec<String>,
    pub selected: Option<usize>,
    pub status: String,
    pub status_err: bool,
    /// What waits for confirmation. The target is captured when its key is pressed, so that later
    /// changes cannot alter it.
    pub confirm: Option<Confirm>,
    pub mirror_line: String,
    pub last_refresh: u64,
    /// The states of simulators by their identifiers.
    pub sim_states: Vec<(String, String)>,
    /// The running operations by VM, with the time of their start.
    pub in_flight: Vec<(String, (Op, u64))>,
    pub refreshing: bool,
    pub update_available: Option<UpdateStatus>,
    /// The version that is being installed, and since when.
    pub upgrading: Option<(String, u64)>,
}

pub struct AppView {
    pub instances: Seq<InstanceView>,
    pub rows: Seq<RowView>,
    pub collapsed: Set<Seq<char>>,
    pub selected: Option<usize>,
    pub status: Seq<char>,
    pub status_err: bool,
    pub confirm: Option<ConfirmView>,
    pub mirror_line: Seq<char>,
    pub last_refresh: u64,
    pub sim_states: Seq<(Seq<char>, Seq<char>)>,
    pub in_flight: Seq<(Seq<char>, (Op, u64))>,
    pub refreshing: bool,
    pub update_available: Option<StatusView>,
    pub upgrading: Option<(Seq<char>, u64)>,
}

/// The texts of a list as a set.
pub open spec fn set_of(v: Seq<Seq<char>>) -> Set<Seq<char>> {
    Set::new(|x: Seq<char>| v.contains(x))
}

impl View for App {
    type V = AppView;

    open spec fn view(&self) -> AppView {
        AppView {
            instances: inspect::instances(self.instances@),
            rows: rows_view(self.rows@),
            collapsed: set_of(text::texts(self.collapsed@)),
            selected: self.selected,
            status: self.status@,
            status_err: self.status_err,
            confirm: match self.confirm {
                Some(c) => Some(c@),
                None => None,
            },
            mirror_line: self.mirror_line@,
            last_refresh: self.last_refresh,
            sim_states: table::text_rows(self.sim_states@),
            in_flight: table::rows(self.in_flight@),
            refreshing: self.refreshing,
            update_available: match self.update_available {
                Some(s) => Some(s@),
                None => None,
            },
            upgrading: match self.upgrading {
                Some(u) => Some((u.0@, u.1)),
                None => None,
            },
        }
    }
}

// ---------------------------------------------------------------------------
// Rows
// ---------------------------------------------------------------------------

/// The order of projects: by their keys, and VMs without a project last.
pub open spec fn group_before(a: Seq<char>, b: Seq<char>) -> bool {
    if a.len() == 0 {
        false
    } else if b.len() == 0 {
        true
    } else {
        text::precedes(a, b)
    }
}

/// The keys with one more, in its place.
pub open spec fn with_key(keys: Seq<Seq<char>>, k: Seq<char>) -> Seq<Seq<char>>
    decreases keys.len(),
{
    if keys.len() == 0 {
        seq![k]
    } else if keys[0] == k {
        keys
    } else if group_before(k, keys[0]) {
        seq![k] + keys
    } else {
        seq![keys[0]] + with_key(keys.skip(1), k)
    }
}

/// The keys of the projects of VMs.
pub open spec fn keys_of(v: Seq<InstanceView>) -> Seq<Seq<char>>
    decreases v.len(),
{
    if v.len() == 0 {
        Seq::empty()
    } else {
        with_key(keys_of(v.drop_last()), v.last().repo)
    }
}

/// The VMs with one more, behind those whose names do not come after its own.
pub open spec fn with_vm(vms: Seq<InstanceView>, x: InstanceView) -> Seq<InstanceView>
    decreases vms.len(),
{
    if vms.len() == 0 {
        seq![x]
    } else if text::precedes(x.name, vms[0].name) {
        seq![x] + vms
    } else {
        seq![vms[0]] + with_vm(vms.skip(1), x)
    }
}

/// The VMs of a project by their names.
pub open spec fn vms_of(v: Seq<InstanceView>, k: Seq<char>) -> Seq<InstanceView>
    decreases v.len(),
{
    if v.len() == 0 {
        Seq::empty()
    } else if v.last().repo == k {
        with_vm(vms_of(v.drop_last(), k), v.last())
    } else {
        vms_of(v.drop_last(), k)
    }
}

/// How many of the VMs run.
pub open spec fn running_in(vms: Seq<InstanceView>) -> nat
    decreases vms.len(),
{
    if vms.len() == 0 {
        0
    } else if vms.last().status == "Running"@ {
        running_in(vms.drop_last()) + 1
    } else {
        running_in(vms.drop_last())
    }
}

pub open spec fn vm_rows(vms: Seq<InstanceView>) -> Seq<RowView> {
    Seq::new(vms.len(), |i: int| RowView::Vm(vms[i]))
}

/// The rows of a project: its heading, and its VMs unless it is folded.
pub open spec fn group_rows(v: Seq<InstanceView>, k: Seq<char>, collapsed: Set<Seq<char>>) -> Seq<
    RowView,
> {
    let vms = vms_of(v, k);
    seq![RowView::Group { key: k, vms: vms.len(), running: running_in(vms) }] + (
    if collapsed.contains(k) {
        Seq::empty()
    } else {
        vm_rows(vms)
    })
}

pub open spec fn rows_for(
    v: Seq<InstanceView>,
    keys: Seq<Seq<char>>,
    collapsed: Set<Seq<char>>,
) -> Seq<RowView>
    decreases keys.len(),
{
    if keys.len() == 0 {
        Seq::empty()
    } else {
        rows_for(v, keys.drop_last(), collapsed) + group_rows(v, keys.last(), collapsed)
    }
}

/// The rows of the console.
pub open spec fn built_rows(v: Seq<InstanceView>, collapsed: Set<Seq<char>>) -> Seq<RowView> {
    rows_for(v, keys_of(v), collapsed)
}

fn is_group_before(a: &str, b: &str) -> (r: bool)
    ensures
        r == group_before(a@, b@),
{
    if a.is_empty() {
        false
    } else if b.is_empty() {
        true
    } else {
        text::before(a, b)
    }
}

fn insert_key(keys: &mut Vec<String>, k: &str)
    ensures
        text::texts(final(keys)@) == with_key(text::texts(old(keys)@), k@),
{
    let ghost t = text::texts(keys@);
    let mut i: usize = 0;
    assert(t.skip(0) =~= t);
    assert(t.take(0) + with_key(t.skip(0), k@) =~= with_key(t, k@));
    while i < keys.len()
        invariant
            i <= keys@.len(),
            keys@ == old(keys)@,
            t == text::texts(keys@),
            t.take(i as int) + with_key(t.skip(i as int), k@) == with_key(t, k@),
        decreases keys@.len() - i,
    {
        assert(t.skip(i as int)[0] == t[i as int]);
        assert(t.skip(i as int).skip(1) =~= t.skip(i + 1));
        if text::same(keys[i].as_str(), k) {
            assert(t.take(i as int) + t.skip(i as int) =~= t);
            return;
        }
        if is_group_before(k, keys[i].as_str()) {
            keys.insert(i, k.to_owned());
            assert(text::texts(keys@) =~= t.take(i as int) + (seq![k@] + t.skip(i as int)));
            return;
        }
        assert(t.take(i as int) + (seq![t[i as int]] + with_key(t.skip(i + 1), k@)) =~= t.take(
            i + 1,
        ) + with_key(t.skip(i + 1), k@));
        i += 1;
    }
    keys.push(k.to_owned());
    assert(text::texts(keys@) =~= t.take(i as int) + seq![k@]);
}

fn group_keys(v: &Vec<Instance>) -> (r: Vec<String>)
    ensures
        text::texts(r@) == keys_of(inspect::instances(v@)),
{
    let ghost t = inspect::instances(v@);
    let mut keys: Vec<String> = Vec::new();
    let mut i: usize = 0;
    assert(t.take(0) =~= Seq::empty());
    assert(text::texts(keys@) =~= Seq::empty());
    while i < v.len()
        invariant
            i <= v@.len(),
            t == inspect::instances(v@),
            text::texts(keys@) == keys_of(t.take(i as int)),
        decreases v@.len() - i,
    {
        assert(t.take(i + 1).drop_last() =~= t.take(i as int));
        assert(t.take(i + 1).last() == v@[i as int]@);
        insert_key(&mut keys, v[i].repo.as_str());
        i += 1;
    }
    assert(t.take(i as int) =~= t);
    keys
}

fn insert_vm(vms: &mut Vec<Instance>, x: Instance)
    ensures
        inspect::instances(final(vms)@) == with_vm(inspect::instances(old(vms)@), x@),
{
    let ghost t = inspect::instances(vms@);
    let ghost xv = x@;
    let mut i: usize = 0;
    assert(t.skip(0) =~= t);
    assert(t.take(0) + with_vm(t.skip(0), xv) =~= with_vm(t, xv));
    while i < vms.len()
        invariant
            i <= vms@.len(),
            vms@ == old(vms)@,
            xv == x@,
            t == inspect::instances(vms@),
            t.take(i as int) + with_vm(t.skip(i as int), xv) == with_vm(t, xv),
        decreases vms@.len() - i,
    {
        assert(t.skip(i as int)[0] == t[i as int]);
        assert(t.skip(i as int).skip(1) =~= t.skip(i + 1));
        if text::before(x.name.as_str(), vms[i].name.as_str()) {
            vms.insert(i, x);
            assert(inspect::instances(vms@) =~= t.take(i as int) + (seq![xv] + t.skip(i as int)));
            return;
        }
        assert(t.take(i as int) + (seq![t[i as int]] + with_vm(t.skip(i + 1), xv)) =~= t.take(i + 1)
            + with_vm(t.skip(i + 1), xv));
        i += 1;
    }
    vms.push(x);
    assert(inspect::instances(vms@) =~= t.take(i as int) + seq![xv]);
}

fn group_vms(v: &Vec<Instance>, k: &str) -> (r: Vec<Instance>)
    ensures
        inspect::instances(r@) == vms_of(inspect::instances(v@), k@),
{
    let ghost t = inspect::instances(v@);
    let mut vms: Vec<Instance> = Vec::new();
    let mut i: usize = 0;
    assert(t.take(0) =~= Seq::empty());
    assert(inspect::instances(vms@) =~= Seq::empty());
    while i < v.len()
        invariant
            i <= v@.len(),
            t == inspect::instances(v@),
            inspect::instances(vms@) == vms_of(t.take(i as int), k@),
        decreases v@.len() - i,
    {
        assert(t.take(i + 1).drop_last() =~= t.take(i as int));
        assert(t.take(i + 1).last() == v@[i as int]@);
        if text::same(v[i].repo.as_str(), k) {
            insert_vm(&mut vms, v[i].clone());
        }
        i += 1;
    }
    assert(t.take(i as int) =~= t);
    vms
}

fn count_running(vms: &Vec<Instance>) -> (r: usize)
    ensures
        r == running_in(inspect::instances(vms@)),
{
    let ghost t = inspect::instances(vms@);
    let mut n: usize = 0;
    let mut i: usize = 0;
    assert(t.take(0) =~= Seq::empty());
    while i < vms.len()
        invariant
            i <= vms@.len(),
            n <= i,
            t == inspect::instances(vms@),
            n == running_in(t.take(i as int)),
        decreases vms@.len() - i,
    {
        assert(t.take(i + 1).drop_last() =~= t.take(i as int));
        assert(t.take(i + 1).last() == vms@[i as int]@);
        if text::same(vms[i].status.as_str(), "Running") {
            n += 1;
        }
        i += 1;
    }
    assert(t.take(i as int) =~= t);
    n
}

fn push_group(rows: &mut Vec<Row>, v: &Vec<Instance>, k: &str, folded: bool)
    ensures
        forall|collapsed: Set<Seq<char>>| #[trigger]
            collapsed.contains(k@) == folded ==> rows_view(final(rows)@) == rows_view(old(rows)@)
                + group_rows(inspect::instances(v@), k@, collapsed),
{
    let ghost before = rows_view(rows@);
    let vms: Vec<Instance> = group_vms(v, k);
    let ghost t = inspect::instances(vms@);
    let running: usize = count_running(&vms);
    let n: usize = vms.len();
    rows.push(Row::Group { key: k.to_owned(), vms: n, running });
    let ghost head = RowView::Group { key: k@, vms: t.len(), running: running_in(t) };
    assert(rows_view(rows@) =~= before.push(head));
    if !folded {
        let mut i: usize = 0;
        assert(before.push(head) + vm_rows(t).take(0) =~= before.push(head));
        while i < vms.len()
            invariant
                i <= vms@.len(),
                t == inspect::instances(vms@),
                rows_view(rows@) == before.push(head) + vm_rows(t).take(i as int),
            decreases vms@.len() - i,
        {
            let ghost so_far = rows_view(rows@);
            let x: Instance = vms[i].clone();
            rows.push(Row::Vm(x));
            assert(rows_view(rows@) =~= so_far.push(vm_rows(t)[i as int]));
            assert(vm_rows(t).take(i + 1) =~= vm_rows(t).take(i as int).push(
                vm_rows(t)[i as int],
            ));
            assert(so_far.push(vm_rows(t)[i as int]) =~= before.push(head) + vm_rows(t).take(
                i + 1,
            ));
            i += 1;
        }
        assert(vm_rows(t).take(i as int) =~= vm_rows(t));
    }
    assert forall|collapsed: Set<Seq<char>>| #[trigger]
        collapsed.contains(k@) == folded implies rows_view(rows@) == before + group_rows(
        inspect::instances(v@),
        k@,
        collapsed,
    ) by {
        assert(rows_view(rows@) =~= before + group_rows(inspect::instances(v@), k@, collapsed));
    }
}

fn build_rows(v: &Vec<Instance>, collapsed: &Vec<String>) -> (r: Vec<Row>)
    ensures
        rows_view(r@) == built_rows(inspect::instances(v@), set_of(text::texts(collapsed@))),
{
    let ghost t = inspect::instances(v@);
    let ghost c = set_of(text::texts(collapsed@));
    let keys: Vec<String> = group_keys(v);
    let ghost ks = text::texts(keys@);
    let mut rows: Vec<Row> = Vec::new();
    let mut i: usize = 0;
    assert(ks.take(0) =~= Seq::empty());
    assert(rows_view(rows@) =~= Seq::empty());
    while i < keys.len()
        invariant
            i <= keys@.len(),
            t == inspect::instances(v@),
            c == set_of(text::texts(collapsed@)),
            ks == text::texts(keys@),
            rows_view(rows@) == rows_for(t, ks.take(i as int), c),
        decreases keys@.len() - i,
    {
        assert(ks.take(i + 1).drop_last() =~= ks.take(i as int));
        assert(ks.take(i + 1).last() == keys@[i as int]@);
        let folded: bool = text::list_contains(collapsed, keys[i].as_str());
        assert(c.contains(keys@[i as int]@) == folded);
        push_group(&mut rows, v, keys[i].as_str(), folded);
        i += 1;
    }
    assert(ks.take(i as int) =~= ks);
    rows
}

// ---------------------------------------------------------------------------
// Laws on rows
// ---------------------------------------------------------------------------

/// Keys are strictly in order.
pub open spec fn keys_sorted(keys: Seq<Seq<char>>) -> bool {
    forall|i: int, j: int|
        #![trigger keys[i], keys[j]]
        0 <= i < j < keys.len() ==> group_before(keys[i], keys[j])
}

proof fn lemma_group_order(a: Seq<char>, b: Seq<char>, c: Seq<char>)
    ensures
        a == b || group_before(a, b) || group_before(b, a),
        group_before(a, b) && group_before(b, c) ==> group_before(a, c),
{
    text::lemma_precedes_total(a, b);
    if a.len() == 0 && b.len() == 0 {
        assert(a =~= b);
    }
    if group_before(a, b) && group_before(b, c) && c.len() > 0 {
        text::lemma_precedes_transitive(a, b, c);
    }
}

proof fn lemma_with_key(keys: Seq<Seq<char>>, k: Seq<char>)
    requires
        keys_sorted(keys),
    ensures
        keys_sorted(with_key(keys, k)),
        forall|x: Seq<char>| #[trigger]
            with_key(keys, k).contains(x) <==> (x == k || keys.contains(x)),
    decreases keys.len(),
{
    let r = with_key(keys, k);
    if keys.len() == 0 {
        assert(r[0] == k);
        assert forall|x: Seq<char>| #[trigger] r.contains(x) <==> (x == k || keys.contains(x)) by {
            if x == k {
                assert(r[0] == x);
            }
        }
    } else if keys[0] == k {
        assert(keys.contains(k));
    } else if group_before(k, keys[0]) {
        assert forall|i: int, j: int|
            #![trigger r[i], r[j]]
            0 <= i < j < r.len() implies group_before(r[i], r[j]) by {
            assert(r[j] == keys[j - 1]);
            if i > 0 {
                assert(r[i] == keys[i - 1]);
            } else if j > 1 {
                assert(group_before(keys[0], keys[j - 1]));
                lemma_group_order(k, keys[0], keys[j - 1]);
            }
        }
        assert forall|x: Seq<char>| #[trigger] r.contains(x) <==> (x == k || keys.contains(x)) by {
            if r.contains(x) {
                let i = choose|i: int| 0 <= i < r.len() && r[i] == x;
                if i > 0 {
                    assert(keys[i - 1] == x);
                }
            }
            if keys.contains(x) {
                let i = choose|i: int| 0 <= i < keys.len() && keys[i] == x;
                assert(r[i + 1] == x);
            }
            if x == k {
                assert(r[0] == x);
            }
        }
    } else {
        let rest = keys.skip(1);
        assert forall|i: int, j: int|
            #![trigger rest[i], rest[j]]
            0 <= i < j < rest.len() implies group_before(rest[i], rest[j]) by {
            assert(rest[i] == keys[i + 1] && rest[j] == keys[j + 1]);
        }
        lemma_with_key(rest, k);
        let q = with_key(rest, k);
        lemma_group_order(k, keys[0], k);
        assert forall|i: int, j: int|
            #![trigger r[i], r[j]]
            0 <= i < j < r.len() implies group_before(r[i], r[j]) by {
            assert(r[j] == q[j - 1]);
            if i > 0 {
                assert(r[i] == q[i - 1]);
            } else {
                assert(q.contains(q[j - 1]));
                if q[j - 1] != k {
                    let m = choose|m: int| 0 <= m < rest.len() && rest[m] == q[j - 1];
                    assert(keys[m + 1] == q[j - 1]);
                }
            }
        }
        assert forall|x: Seq<char>| #[trigger] r.contains(x) <==> (x == k || keys.contains(x)) by {
            if r.contains(x) {
                let i = choose|i: int| 0 <= i < r.len() && r[i] == x;
                if i == 0 {
                    assert(keys[0] == x);
                } else {
                    assert(q[i - 1] == x);
                    assert(q.contains(x));
                    if x != k {
                        let m = choose|m: int| 0 <= m < rest.len() && rest[m] == x;
                        assert(keys[m + 1] == x);
                    }
                }
            }
            if x == k || keys.contains(x) {
                if x == keys[0] {
                    assert(r[0] == x);
                } else {
                    if x != k {
                        let m = choose|m: int| 0 <= m < keys.len() && keys[m] == x;
                        assert(rest[m - 1] == x);
                        assert(rest.contains(x));
                    }
                    assert(q.contains(x));
                    let m = choose|m: int| 0 <= m < q.len() && q[m] == x;
                    assert(r[m + 1] == x);
                }
            }
        }
    }
}

/// Projects come in the order of their keys, each of them once, VMs without a project last; every
/// VM's project is among them, and every one of them is the project of a VM.
pub proof fn lemma_groups(v: Seq<InstanceView>)
    ensures
        keys_sorted(keys_of(v)),
        forall|i: int| 0 <= i < v.len() ==> keys_of(v).contains((#[trigger] v[i]).repo),
        forall|k: Seq<char>| #[trigger]
            keys_of(v).contains(k) ==> exists|i: int| 0 <= i < v.len() && (#[trigger] v[i]).repo == k,
    decreases v.len(),
{
    if v.len() > 0 {
        let f = v.drop_last();
        lemma_groups(f);
        lemma_with_key(keys_of(f), v.last().repo);
        assert forall|i: int| 0 <= i < v.len() implies keys_of(v).contains((#[trigger] v[i]).repo) by {
            if i < f.len() {
                assert(f[i] == v[i]);
                assert(keys_of(f).contains(f[i].repo));
            }
        }
        assert forall|k: Seq<char>| #[trigger] keys_of(v).contains(k) implies exists|i: int|
            0 <= i < v.len() && (#[trigger] v[i]).repo == k by {
            if k == v.last().repo {
                assert(v[v.len() - 1].repo == k);
            } else {
                assert(keys_of(f).contains(k));
                let i = choose|i: int| 0 <= i < f.len() && (#[trigger] f[i]).repo == k;
                assert(v[i] == f[i]);
            }
        }
    }
}

/// No VM comes before one whose name precedes its own.
pub open spec fn vms_sorted(vms: Seq<InstanceView>) -> bool {
    forall|i: int, j: int|
        #![trigger vms[i], vms[j]]
        0 <= i < j < vms.len() ==> !text::precedes(vms[j].name, vms[i].name)
}

proof fn lemma_with_vm(vms: Seq<InstanceView>, x: InstanceView)
    requires
        vms_sorted(vms),
    ensures
        vms_sorted(with_vm(vms, x)),
        with_vm(vms, x).to_multiset() == vms.to_multiset().insert(x),
    decreases vms.len(),
{
    broadcast use vstd::seq_lib::group_to_multiset_ensures;

    let r = with_vm(vms, x);
    if vms.len() == 0 {
        assert(r =~= vms.push(x));
    } else if text::precedes(x.name, vms[0].name) {
        assert(r =~= vms.insert(0, x));
        assert forall|i: int, j: int|
            #![trigger r[i], r[j]]
            0 <= i < j < r.len() implies !text::precedes(r[j].name, r[i].name) by {
            assert(r[j] == vms[j - 1]);
            if i > 0 {
                assert(r[i] == vms[i - 1]);
            } else {
                if text::precedes(vms[j - 1].name, x.name) {
                    text::lemma_precedes_transitive(vms[j - 1].name, x.name, vms[0].name);
                    text::lemma_precedes_total(vms[0].name, vms[0].name);
                    if j > 1 {
                        assert(!text::precedes(vms[j - 1].name, vms[0].name));
                    }
                }
            }
        }
        lemma_insert_multiset(vms, 0, x);
    } else {
        let rest = vms.skip(1);
        assert forall|i: int, j: int|
            #![trigger rest[i], rest[j]]
            0 <= i < j < rest.len() implies !text::precedes(rest[j].name, rest[i].name) by {
            assert(rest[i] == vms[i + 1] && rest[j] == vms[j + 1]);
        }
        lemma_with_vm(rest, x);
        let q = with_vm(rest, x);
        assert(r =~= q.insert(0, vms[0]));
        lemma_insert_multiset(q, 0, vms[0]);
        assert(vms =~= rest.insert(0, vms[0]));
        lemma_insert_multiset(rest, 0, vms[0]);
        assert(r.to_multiset() =~= vms.to_multiset().insert(x));
        assert forall|i: int, j: int|
            #![trigger r[i], r[j]]
            0 <= i < j < r.len() implies !text::precedes(r[j].name, r[i].name) by {
            assert(r[j] == q[j - 1]);
            if i > 0 {
                assert(r[i] == q[i - 1]);
            } else {
                assert(q.to_multiset().count(q[j - 1]) > 0) by {
                    assert(q.contains(q[j - 1]));
                }
                if q[j - 1] != x {
                    assert(rest.to_multiset().count(q[j - 1]) > 0);
                    assert(rest.contains(q[j - 1]));
                    let m = choose|m: int| 0 <= m < rest.len() && rest[m] == q[j - 1];
                    assert(vms[m + 1] == q[j - 1]);
                }
            }
        }
    }
}

proof fn lemma_insert_multiset(s: Seq<InstanceView>, i: int, x: InstanceView)
    requires
        0 <= i <= s.len(),
    ensures
        s.insert(i, x).to_multiset() == s.to_multiset().insert(x),
{
    vstd::seq_lib::to_multiset_insert(s, i, x);
}

/// The VMs of a project, in whatever order.
pub open spec fn in_project(v: Seq<InstanceView>, k: Seq<char>) -> Seq<InstanceView>
    decreases v.len(),
{
    if v.len() == 0 {
        v
    } else if v.last().repo == k {
        in_project(v.drop_last(), k).push(v.last())
    } else {
        in_project(v.drop_last(), k)
    }
}

/// A project shows exactly its own VMs, none lost and none doubled, by their names.
pub proof fn lemma_group_vms(v: Seq<InstanceView>, k: Seq<char>)
    ensures
        vms_sorted(vms_of(v, k)),
        vms_of(v, k).to_multiset() == in_project(v, k).to_multiset(),
    decreases v.len(),
{
    broadcast use vstd::seq_lib::group_to_multiset_ensures;

    if v.len() > 0 {
        lemma_group_vms(v.drop_last(), k);
        if v.last().repo == k {
            lemma_with_vm(vms_of(v.drop_last(), k), v.last());
        }
    } else {
        assert(vms_of(v, k) =~= in_project(v, k));
    }
}

// ---------------------------------------------------------------------------
// Selection
// ---------------------------------------------------------------------------

/// The VMs of a project are those whose repository it is.
pub proof fn lemma_in_project(v: Seq<InstanceView>, k: Seq<char>)
    ensures
        in_project(v, k) == v.filter(|x: InstanceView| x.repo == k),
    decreases v.len(),
{
    reveal(Seq::filter);
    if v.len() > 0 {
        lemma_in_project(v.drop_last(), k);
    }
}

/// As many VMs run as have the status `Running`.
pub proof fn lemma_running(vms: Seq<InstanceView>)
    ensures
        running_in(vms) == vms.filter(|x: InstanceView| x.status == "Running"@).len(),
    decreases vms.len(),
{
    reveal(Seq::filter);
    if vms.len() > 0 {
        lemma_running(vms.drop_last());
    }
}

proof fn lemma_with_vm_holds(vms: Seq<InstanceView>, x: InstanceView, y: InstanceView)
    ensures
        with_vm(vms, x).contains(y) <==> y == x || vms.contains(y),
        with_vm(vms, x).len() == vms.len() + 1,
    decreases vms.len(),
{
    let all = with_vm(vms, x);
    if vms.len() == 0 {
        assert(all[0] == x);
    } else if text::precedes(x.name, vms[0].name) {
        assert(all[0] == x);
        if vms.contains(y) {
            let i = choose|i: int| 0 <= i < vms.len() && vms[i] == y;
            assert(all[i + 1] == y);
        }
        if all.contains(y) {
            let i = choose|i: int| 0 <= i < all.len() && all[i] == y;
            if i > 0 {
                assert(vms[i - 1] == y);
            }
        }
    } else {
        let rest = vms.skip(1);
        let tail = with_vm(rest, x);
        lemma_with_vm_holds(rest, x, y);
        if tail.contains(y) {
            let i = choose|i: int| 0 <= i < tail.len() && tail[i] == y;
            assert(all[i + 1] == y);
        }
        if rest.contains(y) {
            let i = choose|i: int| 0 <= i < rest.len() && rest[i] == y;
            assert(vms[i + 1] == y);
        }
        if vms.contains(y) {
            let i = choose|i: int| 0 <= i < vms.len() && vms[i] == y;
            if i == 0 {
                assert(all[0] == y);
            } else {
                assert(rest[i - 1] == y);
            }
        }
        if all.contains(y) {
            let i = choose|i: int| 0 <= i < all.len() && all[i] == y;
            if i == 0 {
                assert(vms[0] == y);
            } else {
                assert(tail[i - 1] == y);
            }
        }
    }
}

proof fn lemma_vms_of_holds(v: Seq<InstanceView>, k: Seq<char>, x: InstanceView)
    ensures
        vms_of(v, k).contains(x) <==> v.contains(x) && x.repo == k,
        vms_of(v, k).len() == v.filter(|y: InstanceView| y.repo == k).len(),
    decreases v.len(),
{
    reveal(Seq::filter);
    if v.len() > 0 {
        let f = v.drop_last();
        lemma_vms_of_holds(f, k, x);
        if v.last().repo == k {
            lemma_with_vm_holds(vms_of(f, k), v.last(), x);
        }
        if f.contains(x) {
            let i = choose|i: int| 0 <= i < f.len() && f[i] == x;
            assert(v[i] == x);
        }
        if v.contains(x) {
            let i = choose|i: int| 0 <= i < v.len() && v[i] == x;
            if i < f.len() {
                assert(f[i] == x);
            }
        }
        assert(v[v.len() - 1] == v.last());
    }
}

proof fn lemma_rows_for_hold(
    v: Seq<InstanceView>,
    keys: Seq<Seq<char>>,
    collapsed: Set<Seq<char>>,
    x: InstanceView,
)
    ensures
        rows_for(v, keys, collapsed).contains(RowView::Vm(x)) <==> v.contains(x) && keys.contains(
            x.repo,
        ) && !collapsed.contains(x.repo),
    decreases keys.len(),
{
    let all = rows_for(v, keys, collapsed);
    let row = RowView::Vm(x);
    if keys.len() > 0 {
        let f = keys.drop_last();
        let k = keys.last();
        let before = rows_for(v, f, collapsed);
        let own = group_rows(v, k, collapsed);
        let vms = vms_of(v, k);
        lemma_rows_for_hold(v, f, collapsed, x);
        lemma_vms_of_holds(v, k, x);
        assert(keys[keys.len() - 1] == k);
        if before.contains(row) {
            let i = choose|i: int| 0 <= i < before.len() && before[i] == row;
            assert(all[i] == row);
        }
        if f.contains(x.repo) {
            let i = choose|i: int| 0 <= i < f.len() && f[i] == x.repo;
            assert(keys[i] == x.repo);
        }
        if keys.contains(x.repo) {
            let i = choose|i: int| 0 <= i < keys.len() && keys[i] == x.repo;
            if i < f.len() {
                assert(f[i] == x.repo);
            }
        }
        if !collapsed.contains(k) && vms.contains(x) {
            let i = choose|i: int| 0 <= i < vms.len() && vms[i] == x;
            assert(own[i + 1] == row);
            assert(all[before.len() + i + 1] == row);
        }
        if all.contains(row) {
            let i = choose|i: int| 0 <= i < all.len() && all[i] == row;
            if i < before.len() {
                assert(before[i] == row);
            } else {
                let j = i - before.len();
                assert(own[j] == row);
                assert(j > 0 && !collapsed.contains(k));
                assert(vms[j - 1] == x);
            }
        }
    }
}

/// The console shows every VM whose project is not folded, and no other VM.
pub proof fn lemma_every_vm_is_shown(v: Seq<InstanceView>, collapsed: Set<Seq<char>>, x: InstanceView)
    ensures
        built_rows(v, collapsed).contains(RowView::Vm(x)) <==> v.contains(x)
            && !collapsed.contains(x.repo),
{
    lemma_groups(v);
    lemma_rows_for_hold(v, keys_of(v), collapsed, x);
    if v.contains(x) {
        let i = choose|i: int| 0 <= i < v.len() && v[i] == x;
        assert(keys_of(v).contains(v[i].repo));
    }
}

/// A project's heading counts all its VMs and those of them that run, folded or not.
pub proof fn lemma_heading_counts(v: Seq<InstanceView>, k: Seq<char>, collapsed: Set<Seq<char>>)
    ensures
        group_rows(v, k, collapsed)[0] matches RowView::Group { key, vms, running } && key == k
            && vms == v.filter(|y: InstanceView| y.repo == k).len() && running == vms_of(
            v,
            k,
        ).filter(|x: InstanceView| x.status == "Running"@).len(),
        collapsed.contains(k) ==> group_rows(v, k, collapsed).len() == 1,
        !collapsed.contains(k) ==> group_rows(v, k, collapsed).len() == 1 + vms_of(v, k).len(),
        !collapsed.contains(k) ==> forall|i: int|
            0 <= i < vms_of(v, k).len() ==> #[trigger] group_rows(v, k, collapsed)[i + 1]
                == RowView::Vm(vms_of(v, k)[i]),
{
    if v.len() > 0 {
        lemma_vms_of_holds(v, k, v[0]);
    } else {
        reveal(Seq::filter);
    }
    lemma_running(vms_of(v, k));
}

/// What a row is, apart from its position: a heading with its key, or a VM with its name.
pub open spec fn identity(r: RowView) -> (bool, Seq<char>) {
    match r {
        RowView::Group { key, .. } => (true, key),
        RowView::Vm(x) => (false, x.name),
    }
}

pub open spec fn row_at(rows: Seq<RowView>, selected: Option<usize>) -> Option<RowView> {
    match selected {
        Some(i) => if i < rows.len() {
            Some(rows[i as int])
        } else {
            None
        },
        None => None,
    }
}

/// The first row from `i` on that is the given item; the length if there is none.
pub open spec fn find_row(rows: Seq<RowView>, id: (bool, Seq<char>), i: int) -> int
    decreases rows.len() - i,
{
    if i >= rows.len() || identity(rows[i]) == id {
        i
    } else {
        find_row(rows, id, i + 1)
    }
}

/// The selection among new rows: the item that was selected, or else the same position as far as
/// there are rows.
pub open spec fn reselected(
    rows: Seq<RowView>,
    previous: Option<RowView>,
    selected: Option<usize>,
) -> Option<usize> {
    let found = match previous {
        Some(r) => find_row(rows, identity(r), 0),
        None => rows.len() as int,
    };
    if found < rows.len() {
        Some(found as usize)
    } else if rows.len() == 0 {
        None
    } else {
        let cur = match selected {
            Some(i) => i as int,
            None => 0,
        };
        Some(
            (if cur < rows.len() {
                cur
            } else {
                rows.len() - 1
            }) as usize,
        )
    }
}

/// The console with rows for its VMs.
pub open spec fn rebuilt(a: AppView) -> AppView {
    let rows = built_rows(a.instances, a.collapsed);
    AppView { rows, selected: reselected(rows, row_at(a.rows, a.selected), a.selected), ..a }
}

impl App {
    pub fn selected_row(&self) -> (r: Option<&Row>)
        ensures
            match row_at(self@.rows, self@.selected) {
                Some(x) => r matches Some(y) && y@ == x,
                None => r is None,
            },
    {
        match self.selected {
            Some(i) => if i < self.rows.len() {
                Some(&self.rows[i])
            } else {
                None
            },
            None => None,
        }
    }

    /// The VM that is selected, if it is one.
    pub fn selected_vm(&self) -> (r: Option<&Instance>)
        ensures
            match row_at(self@.rows, self@.selected) {
                Some(RowView::Vm(x)) => r matches Some(y) && y@ == x,
                _ => r is None,
            },
    {
        match self.selected_row() {
            Some(Row::Vm(x)) => Some(x),
            _ => None,
        }
    }

    /// What the selected row is, apart from its position.
    pub fn selected_key(&self) -> (r: Option<(bool, String)>)
        ensures
            match row_at(self@.rows, self@.selected) {
                Some(x) => r matches Some(k) && (k.0, k.1@) == identity(x),
                None => r is None,
            },
    {
        match self.selected_row() {
            Some(Row::Group { key, .. }) => Some((true, key.clone())),
            Some(Row::Vm(x)) => Some((false, x.name.clone())),
            None => None,
        }
    }

    /// Build the rows. The selection follows the item rather than the position, so that a refresh
    /// in the background does not make the cursor jump to another item.
    pub fn rebuild_rows(&mut self)
        ensures
            final(self)@ == rebuilt(old(self)@),
    {
        let previous: Option<(bool, String)> = self.selected_key();
        let ghost prev = row_at(self@.rows, self@.selected);
        let rows: Vec<Row> = build_rows(&self.instances, &self.collapsed);
        let ghost t = rows_view(rows@);
        let mut found: usize = rows.len();
        match &previous {
            Some((group, name)) => {
                let ghost id = (*group, name@);
                let mut i: usize = 0;
                let mut hit: bool = false;
                while i < rows.len() && !hit
                    invariant
                        i <= rows@.len(),
                        t == rows_view(rows@),
                        id == (*group, name@),
                        hit ==> i < rows@.len() && identity(t[i as int]) == id,
                        find_row(t, id, 0) == find_row(t, id, i as int),
                    decreases rows@.len() - i + (if hit {
                        0int
                    } else {
                        1int
                    }),
                {
                    assert(t[i as int] == rows@[i as int]@);
                    let same: bool = match &rows[i] {
                        Row::Group { key, .. } => *group && text::same(key.as_str(), name.as_str()),
                        Row::Vm(x) => !*group && text::same(x.name.as_str(), name.as_str()),
                    };
                    if same {
                        hit = true;
                    } else {
                        i += 1;
                    }
                }
                found = i;
            },
            None => {},
        }
        let selected: Option<usize> = if found < rows.len() {
            Some(found)
        } else if rows.len() == 0 {
            None
        } else {
            let cur: usize = match self.selected {
                Some(i) => i,
                None => 0,
            };
            if cur < rows.len() {
                Some(cur)
            } else {
                Some(rows.len() - 1)
            }
        };
        assert(selected == reselected(t, prev, self.selected));
        self.rows = rows;
        self.selected = selected;
        assert(self@ == rebuilt(old(self)@));
    }
}

proof fn lemma_find_row(rows: Seq<RowView>, id: (bool, Seq<char>), i: int)
    requires
        0 <= i <= rows.len(),
    ensures
        i <= find_row(rows, id, i) <= rows.len(),
        find_row(rows, id, i) < rows.len() ==> identity(rows[find_row(rows, id, i)]) == id,
        forall|j: int|
            i <= j < find_row(rows, id, i) ==> identity(#[trigger] rows[j]) != id,
    decreases rows.len() - i,
{
    if i < rows.len() && identity(rows[i]) != id {
        lemma_find_row(rows, id, i + 1);
    }
}

/// After new rows are built, the selected item is selected again if it is still there; and in any
/// case something is selected unless there is nothing.
pub proof fn lemma_selection_follows_the_item(a: AppView, r: RowView, i: int)
    requires
        row_at(a.rows, a.selected) == Some(r),
        0 <= i < rebuilt(a).rows.len(),
        identity(rebuilt(a).rows[i]) == identity(r),
        rebuilt(a).rows.len() <= usize::MAX,
    ensures
        row_at(rebuilt(a).rows, rebuilt(a).selected) matches Some(x) && identity(x) == identity(r),
{
    lemma_find_row(rebuilt(a).rows, identity(r), 0);
}

pub proof fn lemma_selection_is_in_range(a: AppView)
    requires
        rebuilt(a).rows.len() <= usize::MAX,
    ensures
        rebuilt(a).rows.len() == 0 ==> rebuilt(a).selected is None,
        rebuilt(a).rows.len() > 0 ==> row_at(rebuilt(a).rows, rebuilt(a).selected) is Some,
{
    match row_at(a.rows, a.selected) {
        Some(r) => {
            lemma_find_row(rebuilt(a).rows, identity(r), 0);
        },
        None => {},
    }
}

// ---------------------------------------------------------------------------
// Actions
// ---------------------------------------------------------------------------

pub open spec fn with_status(a: AppView, s: Seq<char>, err: bool) -> AppView {
    AppView { status: s, status_err: err, ..a }
}

/// A refresh, unless one is under way.
pub open spec fn refresh(a: AppView) -> (AppView, Seq<EffectView>) {
    if a.refreshing {
        (a, Seq::empty())
    } else {
        (AppView { refreshing: true, ..a }, seq![EffectView::Refresh])
    }
}

pub open spec fn operate(a: AppView, name: Seq<char>, op: Op, now: u64) -> (
    AppView,
    Seq<EffectView>,
) {
    (
        with_status(
            AppView { in_flight: table::inserted(a.in_flight, name, (op, now)), ..a },
            op.text() + " "@ + name + " …"@,
            false,
        ),
        seq![EffectView::Operate(name, op)],
    )
}

pub open spec fn start_upgrade(a: AppView, version: Seq<char>, now: u64) -> (
    AppView,
    Seq<EffectView>,
) {
    (
        with_status(
            AppView { upgrading: Some((version, now)), ..a },
            "upgrading wtx to v"@ + version + " …"@,
            false,
        ),
        seq![EffectView::Upgrade(version)],
    )
}

/// Ask for confirmation of an upgrade, if one is known and none is under way.
pub open spec fn prompted(a: AppView) -> AppView {
    match a.upgrading {
        Some((version, _)) => with_status(
            a,
            "upgrade to v"@ + version + " is already in progress"@,
            false,
        ),
        None => match a.update_available {
            None => with_status(a, "no wtx update available"@, false),
            Some(u) => AppView { confirm: Some(ConfirmView::Upgrade(u.latest_version)), ..a },
        },
    }
}

/// Move the selection, as far as there are rows.
pub open spec fn moved(a: AppView, delta: int) -> AppView {
    if a.rows.len() == 0 {
        a
    } else {
        let cur = match a.selected {
            Some(i) => i as int,
            None => 0,
        };
        let next = if cur + delta < 0 {
            0
        } else if cur + delta >= a.rows.len() {
            a.rows.len() - 1
        } else {
            cur + delta
        };
        AppView { selected: Some(next as usize), ..a }
    }
}

pub open spec fn toggled_set(s: Set<Seq<char>>, k: Seq<char>) -> Set<Seq<char>> {
    if s.contains(k) {
        s.remove(k)
    } else {
        s.insert(k)
    }
}

/// Fold or unfold the selected project; `None` if no heading is selected.
pub open spec fn toggled(a: AppView) -> Option<AppView> {
    match row_at(a.rows, a.selected) {
        Some(RowView::Group { key, .. }) => Some(
            rebuilt(AppView { collapsed: toggled_set(a.collapsed, key), ..a }),
        ),
        _ => None,
    }
}

pub open spec fn busy_text(name: Seq<char>) -> Seq<char> {
    name + ": operation in progress"@
}

pub open spec fn is_busy(a: AppView, name: Seq<char>) -> bool {
    table::lookup(a.in_flight, name) is Some
}

/// A key on the keyboard.
#[derive(Clone, Copy, PartialEq, Eq, Structural, Debug)]
pub enum Key {
    Char(char),
    Up,
    Down,
    Left,
    Right,
    Enter,
    Esc,
    Other,
}

/// A key while an action waits for confirmation: `y` confirms it, every other key cancels it.
pub open spec fn confirmed(a: AppView, c: ConfirmView, key: Key, now: u64) -> (
    AppView,
    Seq<EffectView>,
) {
    let b = AppView { confirm: None, ..a };
    if key == Key::Char('y') {
        match c {
            ConfirmView::Delete(name) => operate(b, name, Op::Delete, now),
            ConfirmView::Upgrade(version) => start_upgrade(b, version, now),
        }
    } else {
        (with_status(b, "cancelled"@, false), Seq::empty())
    }
}

pub open spec fn quitting(a: AppView) -> (AppView, Seq<EffectView>) {
    if a.upgrading is Some {
        (
            with_status(a, "upgrade in progress — wait before quitting"@, false),
            Seq::empty(),
        )
    } else {
        (a, seq![EffectView::Quit])
    }
}

pub open spec fn deleting(a: AppView) -> AppView {
    match row_at(a.rows, a.selected) {
        Some(RowView::Vm(x)) => if is_busy(a, x.name) {
            with_status(a, busy_text(x.name), false)
        } else {
            AppView { confirm: Some(ConfirmView::Delete(x.name)), ..a }
        },
        _ => with_status(a, "select a VM first"@, false),
    }
}

pub open spec fn switching(a: AppView, now: u64) -> (AppView, Seq<EffectView>) {
    match row_at(a.rows, a.selected) {
        Some(RowView::Vm(x)) => if is_busy(a, x.name) {
            (with_status(a, busy_text(x.name), false), Seq::empty())
        } else if x.status == "Running"@ {
            operate(a, x.name, Op::Stop, now)
        } else {
            operate(a, x.name, Op::Start, now)
        },
        _ => (with_status(a, "select a VM first"@, false), Seq::empty()),
    }
}

pub open spec fn entering(a: AppView) -> (AppView, Seq<EffectView>) {
    match toggled(a) {
        Some(b) => (b, Seq::empty()),
        None => match row_at(a.rows, a.selected) {
            Some(RowView::Vm(x)) => if is_busy(a, x.name) {
                (with_status(a, busy_text(x.name), false), Seq::empty())
            } else if x.status != "Running"@ {
                (
                    with_status(
                        a,
                        x.name + " is not running — press s to start it"@,
                        false,
                    ),
                    Seq::empty(),
                )
            } else {
                (a, seq![EffectView::Shell(x.name)])
            },
            _ => (a, Seq::empty()),
        },
    }
}

pub open spec fn first_row(a: AppView) -> Option<usize> {
    if a.rows.len() == 0 {
        None
    } else {
        Some(0)
    }
}

pub open spec fn last_row(a: AppView) -> Option<usize> {
    if a.rows.len() == 0 {
        None
    } else {
        Some((a.rows.len() - 1) as usize)
    }
}

/// What a key does.
pub open spec fn keyed(a: AppView, key: Key, now: u64) -> (AppView, Seq<EffectView>) {
    match a.confirm {
        Some(c) => confirmed(a, c, key, now),
        None => match key {
            Key::Esc => quitting(a),
            Key::Char('q') => quitting(a),
            Key::Char('r') => (
                with_status(refresh(a).0, "refreshing…"@, false),
                refresh(a).1,
            ),
            Key::Down => (moved(a, 1), Seq::empty()),
            Key::Char('j') => (moved(a, 1), Seq::empty()),
            Key::Up => (moved(a, -1), Seq::empty()),
            Key::Char('k') => (moved(a, -1), Seq::empty()),
            Key::Char('g') => (AppView { selected: first_row(a), ..a }, Seq::empty()),
            Key::Char('G') => (AppView { selected: last_row(a), ..a }, Seq::empty()),
            Key::Char(' ') => (folded(a), Seq::empty()),
            Key::Left => (folded(a), Seq::empty()),
            Key::Right => (folded(a), Seq::empty()),
            Key::Char('d') => (deleting(a), Seq::empty()),
            Key::Char('u') => (prompted(a), Seq::empty()),
            Key::Char('s') => switching(a, now),
            Key::Enter => entering(a),
            _ => (a, Seq::empty()),
        },
    }
}

pub open spec fn folded(a: AppView) -> AppView {
    match toggled(a) {
        Some(b) => b,
        None => a,
    }
}

fn no_effects() -> (r: Vec<Effect>)
    ensures
        effects_view(r@) == Seq::<EffectView>::empty(),
{
    let r: Vec<Effect> = Vec::new();
    assert(effects_view(r@) =~= Seq::<EffectView>::empty());
    r
}

fn one_effect(e: Effect) -> (r: Vec<Effect>)
    ensures
        effects_view(r@) == seq![e@],
{
    let mut r: Vec<Effect> = Vec::new();
    r.push(e);
    assert(effects_view(r@) =~= seq![e@]);
    r
}

fn without(v: &Vec<String>, k: &str) -> (r: Vec<String>)
    ensures
        set_of(text::texts(r@)) == set_of(text::texts(v@)).remove(k@),
{
    let ghost t = text::texts(v@);
    let mut out: Vec<String> = Vec::new();
    let mut i: usize = 0;
    while i < v.len()
        invariant
            i <= v@.len(),
            t == text::texts(v@),
            forall|x: Seq<char>| #[trigger]
                text::texts(out@).contains(x) ==> x != k@ && t.contains(x),
            forall|j: int|
                0 <= j < i && #[trigger] t[j] != k@ ==> text::texts(out@).contains(t[j]),
        decreases v@.len() - i,
    {
        let ghost before = text::texts(out@);
        assert(t[i as int] == v@[i as int]@);
        if !text::same(v[i].as_str(), k) {
            text::push_text(&mut out, v[i].as_str());
            let ghost after = text::texts(out@);
            assert forall|x: Seq<char>| #[trigger] after.contains(x) implies x != k@ && t.contains(
                x,
            ) by {
                let m = choose|m: int| 0 <= m < after.len() && after[m] == x;
                if m < before.len() {
                    assert(before[m] == x);
                    assert(before.contains(x));
                } else {
                    assert(t[i as int] == x);
                }
            }
            assert forall|j: int| 0 <= j < i + 1 && #[trigger] t[j] != k@ implies after.contains(
                t[j],
            ) by {
                if j < i {
                    let m = choose|m: int| 0 <= m < before.len() && before[m] == t[j];
                    assert(after[m] == t[j]);
                } else {
                    assert(after[after.len() - 1] == t[j]);
                }
            }
        }
        i += 1;
    }
    assert forall|x: Seq<char>| #[trigger] set_of(text::texts(out@)).contains(x) == set_of(
        t,
    ).remove(k@).contains(x) by {
        if t.contains(x) && x != k@ {
            let m = choose|m: int| 0 <= m < t.len() && t[m] == x;
            assert(text::texts(out@).contains(t[m]));
        }
    }
    assert(set_of(text::texts(out@)) =~= set_of(t).remove(k@));
    out
}

impl App {
    pub fn set_status(&mut self, s: String, err: bool)
        ensures
            final(self)@ == with_status(old(self)@, s@, err),
    {
        self.status = s;
        self.status_err = err;
    }

    pub fn busy(&self, name: &str) -> (r: bool)
        ensures
            r == is_busy(self@, name@),
    {
        table::contains_key(&self.in_flight, name)
    }

    pub fn spawn_refresh(&mut self) -> (r: Vec<Effect>)
        ensures
            (final(self)@, effects_view(r@)) == refresh(old(self)@),
    {
        if self.refreshing {
            return no_effects();
        }
        self.refreshing = true;
        one_effect(Effect::Refresh)
    }

    /// Run an operation in the background.
    pub fn spawn_op(&mut self, name: &str, op: Op, now: u64) -> (r: Vec<Effect>)
        ensures
            (final(self)@, effects_view(r@)) == operate(old(self)@, name@, op, now),
    {
        let mut flights: Vec<(String, (Op, u64))> = Vec::new();
        std::mem::swap(&mut flights, &mut self.in_flight);
        table::insert(&mut flights, name.to_owned(), (op, now));
        self.in_flight = flights;
        let line: String = op.name().to_owned().concat(" ").concat(name).concat(" …");
        self.set_status(line, false);
        one_effect(Effect::Operate(name.to_owned(), op))
    }

    pub fn prompt_upgrade(&mut self)
        ensures
            final(self)@ == prompted(old(self)@),
    {
        let running: Option<String> = match &self.upgrading {
            Some((version, _)) => Some(version.clone()),
            None => None,
        };
        match running {
            Some(version) => {
                let line: String = "upgrade to v".to_owned().concat(version.as_str()).concat(
                    " is already in progress",
                );
                self.set_status(line, false);
                return;
            },
            None => {},
        }
        let latest: Option<String> = match &self.update_available {
            Some(u) => Some(u.latest_version.clone()),
            None => None,
        };
        match latest {
            Some(version) => {
                self.confirm = Some(Confirm::Upgrade(version));
            },
            None => {
                self.set_status("no wtx update available".to_owned(), false);
            },
        }
    }

    pub fn spawn_upgrade(&mut self, version: &str, now: u64) -> (r: Vec<Effect>)
        ensures
            (final(self)@, effects_view(r@)) == start_upgrade(old(self)@, version@, now),
    {
        self.upgrading = Some((version.to_owned(), now));
        let line: String = "upgrading wtx to v".to_owned().concat(version).concat(" …");
        self.set_status(line, false);
        one_effect(Effect::Upgrade(version.to_owned()))
    }

    pub fn move_sel(&mut self, delta: isize)
        ensures
            final(self)@ == moved(old(self)@, delta as int),
    {
        if self.rows.len() == 0 {
            return;
        }
        let cur: usize = match self.selected {
            Some(i) => i,
            None => 0,
        };
        let n: usize = self.rows.len();
        let next: i128 = cur as i128 + delta as i128;
        let i: usize = if next < 0 {
            0
        } else if next >= n as i128 {
            n - 1
        } else {
            next as usize
        };
        self.selected = Some(i);
    }

    /// Fold or unfold the selected project. Return false if no heading is selected.
    pub fn toggle_group(&mut self) -> (r: bool)
        ensures
            r == (toggled(old(self)@) is Some),
            final(self)@ == folded(old(self)@),
    {
        let key: String = match self.selected_row() {
            Some(Row::Group { key, .. }) => key.clone(),
            _ => {
                return false;
            },
        };
        let ghost before = set_of(text::texts(self.collapsed@));
        if text::list_contains(&self.collapsed, key.as_str()) {
            self.collapsed = without(&self.collapsed, key.as_str());
        } else {
            let ghost t = text::texts(self.collapsed@);
            let mut keys: Vec<String> = text::copy_texts(&self.collapsed);
            text::push_text(&mut keys, key.as_str());
            proof {
                let u = text::texts(keys@);
                assert forall|x: Seq<char>| #[trigger] set_of(u).contains(x) == before.insert(
                    key@,
                ).contains(x) by {
                    if t.contains(x) {
                        let m = choose|m: int| 0 <= m < t.len() && t[m] == x;
                        assert(u[m] == x);
                    }
                    if x == key@ {
                        assert(u[u.len() - 1] == x);
                    }
                    if u.contains(x) {
                        let m = choose|m: int| 0 <= m < u.len() && u[m] == x;
                        if m < t.len() {
                            assert(t[m] == x);
                        }
                    }
                }
                assert(set_of(u) =~= before.insert(key@));
            }
            self.collapsed = keys;
        }
        assert(self@.collapsed == toggled_set(before, key@));
        self.rebuild_rows();
        true
    }

    fn answer_confirm(&mut self, c: Confirm, key: Key, now: u64) -> (r: Vec<Effect>)
        requires
            old(self).confirm is None,
        ensures
            (final(self)@, effects_view(r@)) == confirmed(old(self)@, c@, key, now),
    {
        let yes: bool = match key {
            Key::Char(x) => x == 'y',
            _ => false,
        };
        if yes {
            match c {
                Confirm::Delete(name) => self.spawn_op(name.as_str(), Op::Delete, now),
                Confirm::Upgrade(version) => self.spawn_upgrade(version.as_str(), now),
            }
        } else {
            self.set_status("cancelled".to_owned(), false);
            no_effects()
        }
    }

    fn quit(&mut self) -> (r: Vec<Effect>)
        ensures
            (final(self)@, effects_view(r@)) == quitting(old(self)@),
    {
        if self.upgrading.is_some() {
            self.set_status("upgrade in progress — wait before quitting".to_owned(), false);
            no_effects()
        } else {
            one_effect(Effect::Quit)
        }
    }

    fn delete_selected(&mut self)
        ensures
            final(self)@ == deleting(old(self)@),
    {
        let name: Option<String> = match self.selected_vm() {
            Some(x) => Some(x.name.clone()),
            None => None,
        };
        match name {
            Some(n) => {
                if self.busy(n.as_str()) {
                    self.set_status(n.concat(": operation in progress"), false);
                } else {
                    self.confirm = Some(Confirm::Delete(n));
                }
            },
            None => {
                self.set_status("select a VM first".to_owned(), false);
            },
        }
    }

    fn switch_selected(&mut self, now: u64) -> (r: Vec<Effect>)
        ensures
            (final(self)@, effects_view(r@)) == switching(old(self)@, now),
    {
        let vm: Option<Instance> = match self.selected_vm() {
            Some(x) => Some(x.clone()),
            None => None,
        };
        match vm {
            Some(x) => {
                if self.busy(x.name.as_str()) {
                    self.set_status(x.name.concat(": operation in progress"), false);
                    no_effects()
                } else if text::same(x.status.as_str(), "Running") {
                    self.spawn_op(x.name.as_str(), Op::Stop, now)
                } else {
                    self.spawn_op(x.name.as_str(), Op::Start, now)
                }
            },
            None => {
                self.set_status("select a VM first".to_owned(), false);
                no_effects()
            },
        }
    }

    fn enter(&mut self) -> (r: Vec<Effect>)
        ensures
            (final(self)@, effects_view(r@)) == entering(old(self)@),
    {
        if self.toggle_group() {
            return no_effects();
        }
        let vm: Option<Instance> = match self.selected_vm() {
            Some(x) => Some(x.clone()),
            None => None,
        };
        match vm {
            Some(x) => {
                if self.busy(x.name.as_str()) {
                    self.set_status(x.name.concat(": operation in progress"), false);
                    no_effects()
                } else if !text::same(x.status.as_str(), "Running") {
                    self.set_status(
                        x.name.concat(" is not running — press s to start it"),
                        false,
                    );
                    no_effects()
                } else {
                    one_effect(Effect::Shell(x.name))
                }
            },
            None => no_effects(),
        }
    }

    /// What a key does.
    pub fn on_key(&mut self, key: Key, now: u64) -> (r: Vec<Effect>)
        ensures
            (final(self)@, effects_view(r@)) == keyed(old(self)@, key, now),
    {
        let mut pending: Option<Confirm> = None;
        std::mem::swap(&mut pending, &mut self.confirm);
        match pending {
            Some(c) => {
                return self.answer_confirm(c, key, now);
            },
            None => {},
        }
        match key {
            Key::Esc => self.quit(),
            Key::Down => {
                self.move_sel(1);
                no_effects()
            },
            Key::Up => {
                self.move_sel(-1);
                no_effects()
            },
            Key::Left => {
                let _ = self.toggle_group();
                no_effects()
            },
            Key::Right => {
                let _ = self.toggle_group();
                no_effects()
            },
            Key::Enter => self.enter(),
            Key::Other => no_effects(),
            Key::Char(c) => {
                if c == 'q' {
                    self.quit()
                } else if c == 'r' {
                    let e: Vec<Effect> = self.spawn_refresh();
                    self.set_status("refreshing…".to_owned(), false);
                    e
                } else if c == 'j' {
                    self.move_sel(1);
                    no_effects()
                } else if c == 'k' {
                    self.move_sel(-1);
                    no_effects()
                } else if c == 'g' {
                    self.selected = if self.rows.len() == 0 { None } else { Some(0) };
                    no_effects()
                } else if c == 'G' {
                    self.selected = if self.rows.len() == 0 {
                        None
                    } else {
                        Some(self.rows.len() - 1)
                    };
                    no_effects()
                } else if c == ' ' {
                    let _ = self.toggle_group();
                    no_effects()
                } else if c == 'd' {
                    self.delete_selected();
                    no_effects()
                } else if c == 'u' {
                    self.prompt_upgrade();
                    no_effects()
                } else if c == 's' {
                    self.switch_selected(now)
                } else {
                    no_effects()
                }
            },
        }
    }
}

// ---------------------------------------------------------------------------
// Messages
// ---------------------------------------------------------------------------

/// News from the background.
pub enum Msg {
    Refreshed {
        instances: Vec<Instance>,
        sim_states: Vec<(String, String)>,
        mirror_line: String,
    },
    /// An operation has ended, with its error if it failed.
    OpDone {
        name: String,
        op: Op,
        error: Option<String>,
    },
    UpdateChecked(UpdateStatus),
    /// An upgrade has ended, with its error if it failed.
    UpgradeDone {
        version: String,
        error: Option<String>,
    },
}

pub enum MsgView {
    Refreshed {
        instances: Seq<InstanceView>,
        sim_states: Seq<(Seq<char>, Seq<char>)>,
        mirror_line: Seq<char>,
    },
    OpDone {
        name: Seq<char>,
        op: Op,
        error: Option<Seq<char>>,
    },
    UpdateChecked(StatusView),
    UpgradeDone {
        version: Seq<char>,
        error: Option<Seq<char>>,
    },
}

impl View for Msg {
    type V = MsgView;

    open spec fn view(&self) -> MsgView {
        match self {
            Msg::Refreshed { instances, sim_states, mirror_line } => MsgView::Refreshed {
                instances: inspect::instances(instances@),
                sim_states: table::text_rows(sim_states@),
                mirror_line: mirror_line@,
            },
            Msg::OpDone { name, op, error } => MsgView::OpDone {
                name: name@,
                op: *op,
                error: crate::lima::opt_text(*error),
            },
            Msg::UpdateChecked(s) => MsgView::UpdateChecked(s@),
            Msg::UpgradeDone { version, error } => MsgView::UpgradeDone {
                version: version@,
                error: crate::lima::opt_text(*error),
            },
        }
    }
}

/// The console with newly collected state.
pub open spec fn applied(
    a: AppView,
    instances: Seq<InstanceView>,
    sim_states: Seq<(Seq<char>, Seq<char>)>,
    mirror_line: Seq<char>,
    now: u64,
) -> AppView {
    rebuilt(AppView { instances, sim_states, mirror_line, last_refresh: now, ..a })
}

/// What a message does.
pub open spec fn handled(a: AppView, m: MsgView, now: u64) -> (AppView, Seq<EffectView>) {
    match m {
        MsgView::Refreshed { instances, sim_states, mirror_line } => (
            applied(
                AppView { refreshing: false, ..a },
                instances,
                sim_states,
                mirror_line,
                now,
            ),
            Seq::empty(),
        ),
        MsgView::OpDone { name, op, error } => {
            let b = AppView {
                in_flight: table::removed(a.in_flight, name),
                refreshing: true,
                ..a
            };
            (
                match error {
                    None => with_status(b, op.text() + " "@ + name + ": done"@, false),
                    Some(e) => with_status(
                        b,
                        op.text() + " "@ + name + " failed: "@ + e,
                        true,
                    ),
                },
                seq![EffectView::Clear, EffectView::Refresh],
            )
        },
        MsgView::UpdateChecked(s) => (
            AppView {
                update_available: if s.update_available {
                    Some(s)
                } else {
                    None
                },
                ..a
            },
            Seq::empty(),
        ),
        MsgView::UpgradeDone { version, error } => {
            let b = AppView { upgrading: None, ..a };
            (
                match error {
                    None => with_status(
                        AppView { update_available: None, ..b },
                        "Homebrew upgrade finished for v"@ + version + " — restart wtx"@,
                        false,
                    ),
                    Some(e) => with_status(b, "upgrade failed: "@ + e, true),
                },
                Seq::empty(),
            )
        },
    }
}

/// An empty console.
pub open spec fn blank(update: Option<StatusView>, now: u64) -> AppView {
    AppView {
        instances: Seq::empty(),
        rows: Seq::empty(),
        collapsed: Set::empty(),
        selected: None,
        status: Seq::empty(),
        status_err: false,
        confirm: None,
        mirror_line: Seq::empty(),
        last_refresh: now,
        sim_states: Seq::empty(),
        in_flight: Seq::empty(),
        refreshing: false,
        update_available: update,
        upgrading: None,
    }
}

impl App {
    /// A console without VMs.
    pub fn empty(update: Option<UpdateStatus>, now: u64) -> (r: App)
        ensures
            r@ == blank(
                match update {
                    Some(s) => Some(s@),
                    None => None,
                },
                now,
            ),
    {
        let r: App = App {
            instances: Vec::new(),
            rows: Vec::new(),
            collapsed: Vec::new(),
            selected: None,
            status: text::empty(),
            status_err: false,
            confirm: None,
            mirror_line: text::empty(),
            last_refresh: now,
            sim_states: Vec::new(),
            in_flight: Vec::new(),
            refreshing: false,
            update_available: update,
            upgrading: None,
        };
        assert(r@.instances =~= Seq::empty());
        assert(r@.rows =~= Seq::empty());
        assert(r@.collapsed =~= Set::empty());
        assert(r@.sim_states =~= Seq::empty());
        assert(r@.in_flight =~= Seq::empty());
        r
    }

    /// A console with its first rows; the first of them is selected.
    pub fn new(
        update: Option<UpdateStatus>,
        instances: Vec<Instance>,
        sim_states: Vec<(String, String)>,
        mirror_line: String,
        now: u64,
    ) -> (r: App)
        ensures
            r@ == applied(
                blank(
                    match update {
                        Some(s) => Some(s@),
                        None => None,
                    },
                    now,
                ),
                inspect::instances(instances@),
                table::text_rows(sim_states@),
                mirror_line@,
                now,
            ),
    {
        let mut a: App = App::empty(update, now);
        a.apply(instances, sim_states, mirror_line, now);
        a
    }

    pub fn apply(
        &mut self,
        instances: Vec<Instance>,
        sim_states: Vec<(String, String)>,
        mirror_line: String,
        now: u64,
    )
        ensures
            final(self)@ == applied(
                old(self)@,
                inspect::instances(instances@),
                table::text_rows(sim_states@),
                mirror_line@,
                now,
            ),
    {
        self.instances = instances;
        self.sim_states = sim_states;
        self.mirror_line = mirror_line;
        self.last_refresh = now;
        self.rebuild_rows();
    }

    /// What a message does.
    pub fn handle(&mut self, m: Msg, now: u64) -> (r: Vec<Effect>)
        ensures
            (final(self)@, effects_view(r@)) == handled(old(self)@, m@, now),
    {
        match m {
            Msg::Refreshed { instances, sim_states, mirror_line } => {
                self.refreshing = false;
                self.apply(instances, sim_states, mirror_line, now);
                no_effects()
            },
            Msg::OpDone { name, op, error } => {
                let mut flights: Vec<(String, (Op, u64))> = Vec::new();
                std::mem::swap(&mut flights, &mut self.in_flight);
                let _ = table::remove(&mut flights, name.as_str());
                self.in_flight = flights;
                match error {
                    None => {
                        let line: String = op.name().to_owned().concat(" ").concat(
                            name.as_str(),
                        ).concat(": done");
                        self.set_status(line, false);
                    },
                    Some(e) => {
                        let line: String = op.name().to_owned().concat(" ").concat(
                            name.as_str(),
                        ).concat(" failed: ").concat(e.as_str());
                        self.set_status(line, true);
                    },
                }
                self.refreshing = true;
                let mut effects: Vec<Effect> = Vec::new();
                effects.push(Effect::Clear);
                effects.push(Effect::Refresh);
                assert(effects_view(effects@) =~= seq![EffectView::Clear, EffectView::Refresh]);
                effects
            },
            Msg::UpdateChecked(s) => {
                self.update_available = if s.update_available { Some(s) } else { None };
                no_effects()
            },
            Msg::UpgradeDone { version, error } => {
                self.upgrading = None;
                match error {
                    None => {
                        self.update_available = None;
                        let line: String = "Homebrew upgrade finished for v".to_owned().concat(
                            version.as_str(),
                        ).concat(" — restart wtx");
                        self.set_status(line, false);
                    },
                    Some(e) => {
                        let line: String = "upgrade failed: ".to_owned().concat(e.as_str());
                        self.set_status(line, true);
                    },
                }
                no_effects()
            },
        }
    }

    /// The console after a shell on a VM, with the shell's error if it failed.
    pub fn left_shell(&mut self, name: &str, error: Option<&str>) -> (r: Vec<Effect>)
        ensures
            (final(self)@, effects_view(r@)) == refresh(
                match error {
                    None => with_status(old(self)@, "left the shell on "@ + name@, false),
                    Some(e) => with_status(old(self)@, "shell: "@ + e@, true),
                },
            ),
    {
        match error {
            None => {
                self.set_status("left the shell on ".to_owned().concat(name), false);
            },
            Some(e) => {
                self.set_status("shell: ".to_owned().concat(e), true);
            },
        }
        self.spawn_refresh()
    }

    /// The passing of time without a key: every five seconds the state is collected anew.
    pub fn idle(&mut self, now: u64) -> (r: Vec<Effect>)
        ensures
            (final(self)@, effects_view(r@)) == (if now - old(self)@.last_refresh > 5000 {
                refresh(old(self)@)
            } else {
                (old(self)@, Seq::empty())
            }),
    {
        if now > self.last_refresh && now - self.last_refresh > 5000 {
            self.spawn_refresh()
        } else {
            no_effects()
        }
    }
}

// ---------------------------------------------------------------------------
// Laws on actions
// ---------------------------------------------------------------------------

/// What holds of the console at all times: what waits for confirmation can still be done, and
/// no VM has two operations.
pub open spec fn consistent(a: AppView) -> bool {
    &&& table::sorted(a.in_flight)
    &&& a.confirm matches Some(ConfirmView::Delete(n)) ==> !is_busy(a, n)
    &&& a.confirm matches Some(ConfirmView::Upgrade(_)) ==> a.upgrading is None
}

/// Keys keep the console consistent. An operation starts only on a VM that has none, an upgrade
/// only while there is none, and the console does not quit during an upgrade.
pub proof fn lemma_keys_are_safe(a: AppView, key: Key, now: u64)
    requires
        consistent(a),
    ensures
        consistent(keyed(a, key, now).0),
        forall|i: int|
            0 <= i < keyed(a, key, now).1.len() ==> match #[trigger] keyed(a, key, now).1[i] {
                EffectView::Operate(n, _) => !is_busy(a, n),
                EffectView::Upgrade(_) => a.upgrading is None,
                EffectView::Quit => a.upgrading is None,
                _ => true,
            },
{
    match a.confirm {
        Some(ConfirmView::Delete(n)) => {
            table::lemma_sorted(a.in_flight, n, (Op::Delete, now));
        },
        _ => {},
    }
    match row_at(a.rows, a.selected) {
        Some(RowView::Vm(x)) => {
            table::lemma_sorted(a.in_flight, x.name, (Op::Start, now));
            table::lemma_sorted(a.in_flight, x.name, (Op::Stop, now));
        },
        _ => {},
    }
}

/// Keys do what they are for. `y` does what waits for confirmation, to exactly the VM or the version
/// that was asked about, and any other key drops it; a deletion is only ever asked about; a VM that
/// runs is stopped or entered and one that does not is started; movements go one row or to the end.
pub proof fn lemma_keys_do_what_they_are_for(a: AppView, key: Key, now: u64)
    ensures
        a.confirm matches Some(c) ==> {
            &&& keyed(a, key, now).0.confirm is None
            &&& key != Key::Char('y') ==> keyed(a, key, now).1.len() == 0
            &&& c matches ConfirmView::Delete(n) ==> keyed(a, Key::Char('y'), now).1 == seq![
                EffectView::Operate(n, Op::Delete),
            ]
            &&& c matches ConfirmView::Upgrade(v) ==> keyed(a, Key::Char('y'), now).1 == seq![
                EffectView::Upgrade(v),
            ] && keyed(a, Key::Char('y'), now).0.upgrading == Some((v, now))
        },
        a.confirm is None ==> {
            &&& keyed(a, Key::Char('d'), now).1.len() == 0
            &&& (row_at(a.rows, a.selected) matches Some(RowView::Vm(x)) ==> !is_busy(a, x.name)
                ==> {
                &&& keyed(a, Key::Char('d'), now).0.confirm == Some(ConfirmView::Delete(x.name))
                &&& x.status == "Running"@ ==> keyed(a, Key::Char('s'), now).1 == seq![
                    EffectView::Operate(x.name, Op::Stop),
                ]
                &&& x.status != "Running"@ ==> keyed(a, Key::Char('s'), now).1 == seq![
                    EffectView::Operate(x.name, Op::Start),
                ]
                &&& x.status == "Running"@ ==> keyed(a, Key::Enter, now).1 == seq![
                    EffectView::Shell(x.name),
                ]
                &&& x.status != "Running"@ ==> keyed(a, Key::Enter, now).1.len() == 0
            })
            &&& (row_at(a.rows, a.selected) matches Some(RowView::Vm(x)) ==> is_busy(a, x.name)
                ==> {
                &&& keyed(a, Key::Char('d'), now).0.confirm is None
                &&& keyed(a, Key::Char('s'), now).1.len() == 0
                &&& keyed(a, Key::Enter, now).1.len() == 0
            })
            &&& a.upgrading is None ==> keyed(a, Key::Char('q'), now).1 == seq![EffectView::Quit]
                && keyed(a, Key::Esc, now).1 == seq![EffectView::Quit]
            &&& !a.refreshing ==> keyed(a, Key::Char('r'), now).1 == seq![EffectView::Refresh]
            &&& a.refreshing ==> keyed(a, Key::Char('r'), now).1.len() == 0
            &&& (a.update_available matches Some(u) ==> a.upgrading is None ==> keyed(
                a,
                Key::Char('u'),
                now,
            ).0.confirm == Some(ConfirmView::Upgrade(u.latest_version)))
            &&& a.update_available is None || a.upgrading is Some ==> keyed(
                a,
                Key::Char('u'),
                now,
            ).0.confirm is None
            &&& (a.selected matches Some(i) ==> i < a.rows.len() && a.rows.len() <= usize::MAX ==> {
                &&& i + 1 < a.rows.len() ==> keyed(a, Key::Down, now).0.selected == Some(
                    (i + 1) as usize,
                )
                &&& i + 1 == a.rows.len() ==> keyed(a, Key::Down, now).0.selected == Some(i)
                &&& i > 0 ==> keyed(a, Key::Up, now).0.selected == Some((i - 1) as usize)
                &&& i == 0 ==> keyed(a, Key::Up, now).0.selected == Some(i)
                &&& keyed(a, Key::Char('g'), now).0.selected == Some(0usize)
                &&& keyed(a, Key::Char('G'), now).0.selected == Some((a.rows.len() - 1) as usize)
                &&& keyed(a, Key::Char('j'), now).0 == keyed(a, Key::Down, now).0
                &&& keyed(a, Key::Char('k'), now).0 == keyed(a, Key::Up, now).0
            })
        },
{
    match row_at(a.rows, a.selected) {
        Some(RowView::Vm(x)) => {
            assert(toggled(a) is None);
        },
        _ => {},
    }
}

/// Messages are taken in: a refresh shows the VMs that it found, an operation that is done leaves its
/// VM free and says whether it failed, and a check shows an update only if there is one.
pub proof fn lemma_messages_are_taken_in(
    a: AppView,
    instances: Seq<InstanceView>,
    sim_states: Seq<(Seq<char>, Seq<char>)>,
    mirror_line: Seq<char>,
    name: Seq<char>,
    other: Seq<char>,
    op: Op,
    error: Option<Seq<char>>,
    s: StatusView,
    now: u64,
)
    requires
        consistent(a),
    ensures
        ({
            let b = handled(a, MsgView::Refreshed { instances, sim_states, mirror_line }, now).0;
            &&& b.instances == instances && b.sim_states == sim_states
            &&& b.mirror_line == mirror_line && b.last_refresh == now && !b.refreshing
            &&& b.rows == built_rows(instances, a.collapsed)
            &&& b.in_flight == a.in_flight && b.confirm == a.confirm
        }),
        ({
            let m = MsgView::OpDone { name, op, error };
            let b = handled(a, m, now).0;
            &&& !is_busy(b, name)
            &&& other != name ==> is_busy(b, other) == is_busy(a, other)
            &&& b.status_err == (error is Some)
            &&& error matches Some(e) ==> b.status == op.text() + " "@ + name + " failed: "@ + e
            &&& error is None ==> b.status == op.text() + " "@ + name + ": done"@
            &&& handled(a, m, now).1 == seq![EffectView::Clear, EffectView::Refresh]
        }),
        s.update_available ==> handled(a, MsgView::UpdateChecked(s), now).0.update_available
            == Some(s),
        !s.update_available ==> handled(
            a,
            MsgView::UpdateChecked(s),
            now,
        ).0.update_available is None,
{
    table::lemma_lookup_removed(a.in_flight, name, other);
    table::lemma_lookup_removed(a.in_flight, name, name);
}

/// Messages keep the console consistent and start neither an operation nor an upgrade.
pub proof fn lemma_messages_are_safe(a: AppView, m: MsgView, now: u64)
    requires
        consistent(a),
    ensures
        consistent(handled(a, m, now).0),
        forall|i: int|
            0 <= i < handled(a, m, now).1.len() ==> (#[trigger] handled(a, m, now).1[i] is Clear
                || handled(a, m, now).1[i] is Refresh),
{
    match m {
        MsgView::OpDone { name, op, error } => {
            table::lemma_sorted(a.in_flight, name, (op, now));
            match a.confirm {
                Some(ConfirmView::Delete(n)) => {
                    table::lemma_lookup_removed(a.in_flight, name, n);
                },
                _ => {},
            }
        },
        _ => {},
    }
}

/// A failed upgrade keeps the notice, so that it can be tried again; a successful one takes it
/// away. Either way the next upgrade is possible.
pub proof fn lemma_upgrade_outcome(a: AppView, version: Seq<char>, error: Option<Seq<char>>, now: u64)
    ensures
        ({
            let b = handled(a, MsgView::UpgradeDone { version, error }, now).0;
            &&& b.upgrading is None
            &&& b.update_available == (if error is Some {
                a.update_available
            } else {
                None
            })
            &&& b.status_err == (error is Some)
        }),
{
}

proof fn lemma_heading_present(
    v: Seq<InstanceView>,
    keys: Seq<Seq<char>>,
    collapsed: Set<Seq<char>>,
    k: Seq<char>,
)
    requires
        keys.contains(k),
    ensures
        exists|i: int|
            0 <= i < rows_for(v, keys, collapsed).len() && identity(
                #[trigger] rows_for(v, keys, collapsed)[i],
            ) == (true, k),
    decreases keys.len(),
{
    let f = keys.drop_last();
    let rows = rows_for(v, keys, collapsed);
    let before = rows_for(v, f, collapsed);
    if keys.last() == k {
        assert(rows[before.len() as int] == group_rows(v, k, collapsed)[0]);
        assert(identity(rows[before.len() as int]) == (true, k));
    } else {
        let m = choose|m: int| 0 <= m < keys.len() && keys[m] == k;
        assert(f[m] == k);
        lemma_heading_present(v, f, collapsed, k);
        let i = choose|i: int| 0 <= i < before.len() && identity(#[trigger] before[i]) == (true, k);
        assert(rows[i] == before[i]);
    }
}

proof fn lemma_heading_has_key(
    v: Seq<InstanceView>,
    keys: Seq<Seq<char>>,
    collapsed: Set<Seq<char>>,
    i: int,
)
    requires
        0 <= i < rows_for(v, keys, collapsed).len(),
        rows_for(v, keys, collapsed)[i] is Group,
    ensures
        keys.contains(rows_for(v, keys, collapsed)[i]->key),
    decreases keys.len(),
{
    if keys.len() > 0 {
        let f = keys.drop_last();
        let rows = rows_for(v, keys, collapsed);
        let before = rows_for(v, f, collapsed);
        if i < before.len() {
            assert(rows[i] == before[i]);
            lemma_heading_has_key(v, f, collapsed, i);
            let m = choose|m: int| 0 <= m < f.len() && f[m] == before[i]->key;
            assert(keys[m] == before[i]->key);
        } else {
            assert(rows[i] == group_rows(v, keys.last(), collapsed)[i - before.len()]);
            assert(i == before.len());
            assert(keys[keys.len() - 1] == rows[i]->key);
        }
    }
}

/// Folding a project and unfolding it again shows what was shown before, with the same heading
/// selected.
pub proof fn lemma_folding_is_undone(a: AppView, b: AppView, key: Seq<char>, vms: nat, running: nat)
    requires
        a.rows == built_rows(a.instances, a.collapsed),
        row_at(a.rows, a.selected) == Some(RowView::Group { key, vms, running }),
        toggled(a) == Some(b),
        b.rows.len() <= usize::MAX,
        a.rows.len() <= usize::MAX,
    ensures
        toggled(b) matches Some(c) && c.rows == a.rows && c.collapsed == a.collapsed && (row_at(
            c.rows,
            c.selected,
        ) matches Some(r) && identity(r) == (true, key)),
{
    let ks = keys_of(a.instances);
    lemma_heading_has_key(a.instances, ks, a.collapsed, a.selected->0 as int);
    lemma_heading_present(a.instances, ks, b.collapsed, key);
    lemma_heading_present(a.instances, ks, a.collapsed, key);
    let i = choose|i: int| 0 <= i < b.rows.len() && identity(#[trigger] b.rows[i]) == (true, key);
    lemma_find_row(b.rows, (true, key), 0);
    assert(row_at(b.rows, b.selected) matches Some(r) && identity(r) == (true, key));
    let back = toggled_set(b.collapsed, key);
    assert(back =~= a.collapsed);
    let c = toggled(b)->0;
    let j = choose|j: int| 0 <= j < a.rows.len() && identity(#[trigger] a.rows[j]) == (true, key);
    lemma_find_row(c.rows, (true, key), 0);
}

/// The mirrors in the title: how they are started, and which of them answer.
pub open spec fn mirror_words(e: Seq<EntryView>, alive: Seq<u16>) -> Seq<Seq<char>> {
    Seq::new(
        e.len(),
        |i: int|
            (if alive.contains(e[i].port) {
                "●"@
            } else {
                "○"@
            }) + e[i].registry,
    )
}

/// Every mirror is in the title, in its place, with whether it answers.
pub proof fn lemma_every_mirror_is_in_the_title(e: Seq<EntryView>, alive: Seq<u16>, i: int)
    ensures
        mirror_words(e, alive).len() == e.len(),
        0 <= i < e.len() && alive.contains(e[i].port) ==> mirror_words(e, alive)[i] == "●"@
            + e[i].registry,
        0 <= i < e.len() && !alive.contains(e[i].port) ==> mirror_words(e, alive)[i] == "○"@
            + e[i].registry,
{
}

pub fn mirror_line(on_demand: bool, config: &Vec<MirrorEntry>, alive: &Vec<u16>) -> (r: String)
    ensures
        r@ == "mirror["@ + (if on_demand {
            "launchd"@
        } else {
            "manual"@
        }) + "]  "@ + text::joined(mirror_words(mirror::entries(config@), alive@), "  "@),
{
    let ghost all = mirror_words(mirror::entries(config@), alive@);
    let mut words: Vec<String> = Vec::new();
    let mut i: usize = 0;
    assert(text::texts(words@) =~= all.take(0));
    while i < config.len()
        invariant
            i <= config@.len(),
            all == mirror_words(mirror::entries(config@), alive@),
            text::texts(words@) == all.take(i as int),
        decreases config@.len() - i,
    {
        let mark: &str = if crate::port::contains_port(alive, config[i].port) { "●" } else { "○" };
        text::push_string(&mut words, mark.to_owned().concat(config[i].registry.as_str()));
        assert(all.take(i + 1) =~= all.take(i as int).push(all[i as int]));
        i += 1;
    }
    assert(all.take(i as int) =~= all);
    let list: String = text::join(&words, "  ");
    let mode: &str = if on_demand { "launchd" } else { "manual" };
    "mirror[".to_owned().concat(mode).concat("]  ").concat(list.as_str())
}

} // verus!
