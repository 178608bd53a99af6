//! What the arguments on the command line mean.
use vstd::prelude::*;

use crate::context::{self, Known};
use crate::lima::{self, opt_text, InstanceMeta, MetaView, UpOpts, UpView};
use crate::path;
use crate::table;
use crate::text;
use crate::util;

verus! {

// ---------------------------------------------------------------------------
// Creation flags
// ---------------------------------------------------------------------------

/// The flags of `wtx up` and `wtx new`.
pub struct UpFlags {
    pub memory: Option<String>,
    pub cpus: Option<u32>,
    pub disk: String,
    pub from: Option<String>,
    pub agent_access: bool,
    /// An old flag: credentials are not shared unless asked for.
    pub no_claude: bool,
    pub no_clone: bool,
    pub sim: bool,
    pub sim_device: Option<String>,
}

impl UpFlags {
    pub fn into_opts(self, extra_mounts: Vec<String>) -> (r: UpOpts)
        ensures
            r@ == (UpView {
                memory: opt_text(self.memory),
                cpus: self.cpus,
                disk: self.disk@,
                from: opt_text(self.from),
                agent_access: self.agent_access && !self.no_claude,
                no_clone: self.no_clone,
                extra_mounts: text::texts(extra_mounts@),
                sim: self.sim,
                sim_device: opt_text(self.sim_device),
            }),
    {
        UpOpts {
            memory: self.memory,
            cpus: self.cpus,
            disk: self.disk,
            from: self.from,
            agent_access: self.agent_access && !self.no_claude,
            no_clone: self.no_clone,
            extra_mounts,
            sim: self.sim,
            sim_device: self.sim_device,
        }
    }
}

// ---------------------------------------------------------------------------
// Owners
// ---------------------------------------------------------------------------

/// Who a VM belongs to: where it comes from, for a later cleanup.
pub struct OwnerMeta {
    pub kind: String,
    /// Labels in the order of their keys.
    pub labels: Vec<(String, String)>,
}

/// The owner flags of `wtx ensure`.
pub struct OwnerFlags {
    pub owner: Option<String>,
    pub labels: Vec<String>,
}

/// The labels of the flags `KEY=VALUE`, by their keys, or the error of the first bad one.
pub open spec fn owner_labels(flags: Seq<Seq<char>>) -> Result<
    Seq<(Seq<char>, Seq<char>)>,
    Seq<char>,
>
    decreases flags.len(),
{
    if flags.len() == 0 {
        Ok(Seq::empty())
    } else {
        let raw = flags.last();
        match owner_labels(flags.drop_last()) {
            Err(e) => Err(e),
            Ok(t) => match text::split_at_first(raw, '=') {
                None => Err("owner label must be KEY=VALUE: "@ + raw),
                Some((k, v)) => if k.len() == 0 || v.len() == 0 {
                    Err("owner label must have a non-empty key and value: "@ + raw)
                } else if table::lookup(t, k) is Some {
                    Err("duplicate owner label: "@ + k)
                } else {
                    Ok(table::inserted(t, k, v))
                },
            },
        }
    }
}

/// The owner that the flags describe, if any.
pub open spec fn owner_of(owner: Option<Seq<char>>, labels: Seq<Seq<char>>) -> Result<
    Option<(Seq<char>, Seq<(Seq<char>, Seq<char>)>)>,
    Seq<char>,
> {
    match owner {
        None => if labels.len() == 0 {
            Ok(None)
        } else {
            Err("--owner-label requires --owner"@)
        },
        Some(kind) => if text::stripped(kind).len() == 0 {
            Err("--owner must not be empty"@)
        } else {
            match owner_labels(labels) {
                Ok(t) => Ok(Some((text::stripped(kind), t))),
                Err(e) => Err(e),
            }
        },
    }
}

proof fn lemma_owner_error_stays(flags: Seq<Seq<char>>, i: int)
    requires
        0 <= i <= flags.len(),
        owner_labels(flags.take(i)) is Err,
    ensures
        owner_labels(flags) == owner_labels(flags.take(i)),
    decreases flags.len() - i,
{
    if i == flags.len() {
        assert(flags.take(i) =~= flags);
    } else {
        assert(flags.take(i + 1).drop_last() =~= flags.take(i));
        lemma_owner_error_stays(flags, i + 1);
    }
}

impl OwnerFlags {
    pub fn into_owner(self) -> (r: Result<Option<OwnerMeta>, String>)
        ensures
            match owner_of(opt_text(self.owner), text::texts(self.labels@)) {
                Ok(Some((kind, labels))) => r matches Ok(Some(x)) && x.kind@ == kind
                    && table::text_rows(x.labels@) == labels,
                Ok(None) => r matches Ok(None),
                Err(e) => r matches Err(x) && x@ == e,
            },
    {
        let ghost flags = text::texts(self.labels@);
        let kind: String = match self.owner {
            Some(k) => k,
            None => {
                if self.labels.len() == 0 {
                    assert(flags.len() == 0);
                    return Ok(None);
                }
                assert(flags.len() > 0);
                return Err("--owner-label requires --owner".to_owned());
            },
        };
        let kind: &str = text::trim(kind.as_str());
        if kind.is_empty() {
            return Err("--owner must not be empty".to_owned());
        }
        let mut labels: Vec<(String, String)> = Vec::new();
        let mut i: usize = 0;
        assert(flags.take(0) =~= Seq::empty());
        assert(table::text_rows(labels@) =~= Seq::empty());
        while i < self.labels.len()
            invariant
                i <= self.labels@.len(),
                flags == text::texts(self.labels@),
                kind@.len() > 0,
                opt_text(self.owner) matches Some(k) && text::stripped(k) == kind@,
                owner_labels(flags.take(i as int)) == Ok::<
                    Seq<(Seq<char>, Seq<char>)>,
                    Seq<char>,
                >(table::text_rows(labels@)),
            decreases self.labels@.len() - i,
        {
            assert(flags.take(i + 1).drop_last() =~= flags.take(i as int));
            assert(flags.take(i + 1).last() == flags[i as int]);
            let raw: &str = self.labels[i].as_str();
            proof {
                if owner_labels(flags.take(i + 1)) is Err {
                    lemma_owner_error_stays(flags, i + 1);
                }
            }
            match text::split_once(raw, '=') {
                None => {
                    return Err("owner label must be KEY=VALUE: ".to_owned().concat(raw));
                },
                Some((k, v)) => {
                    if k.is_empty() || v.is_empty() {
                        return Err(
                            "owner label must have a non-empty key and value: ".to_owned().concat(
                                raw,
                            ),
                        );
                    }
                    match table::get_text(&labels, k) {
                        Some(_) => {
                            return Err("duplicate owner label: ".to_owned().concat(k));
                        },
                        None => {},
                    }
                    table::insert_text(&mut labels, k, v);
                },
            }
            i += 1;
        }
        assert(flags.take(i as int) =~= flags);
        Ok(Some(OwnerMeta { kind: kind.to_owned(), labels }))
    }
}

/// An owner is kept without the white space around it, with all its labels; labels need an owner, and
/// an owner needs a text.
pub proof fn lemma_owner(kind: Seq<char>, labels: Seq<Seq<char>>)
    ensures
        owner_of(None, Seq::empty()) matches Ok(None),
        labels.len() > 0 ==> owner_of(None, labels) is Err,
        text::stripped(kind).len() == 0 ==> owner_of(Some(kind), labels) is Err,
        owner_labels(labels) is Err ==> owner_of(Some(kind), labels) is Err,
        text::stripped(kind).len() > 0 && owner_labels(labels) is Ok ==> owner_of(
            Some(kind),
            labels,
        ) == Ok::<Option<(Seq<char>, Seq<(Seq<char>, Seq<char>)>)>, Seq<char>>(
            Some((text::stripped(kind), owner_labels(labels)->Ok_0)),
        ),
{
}

/// A VM that is given by its name serves the directory of its record, and the current one without.
pub proof fn lemma_recorded_dir(m: MetaView)
    ensures
        m.workdir.len() > 0 ==> recorded_dir(Some(m)) == m.workdir,
        m.workdir.len() == 0 ==> recorded_dir(Some(m)) == "."@,
        recorded_dir(None) == "."@,
{
}

/// Every label is kept under its key with its whole value, which may hold further `=`; a key that
/// occurs twice, a flag without `=` and an empty key or value are refused.
pub proof fn lemma_every_owner_label_is_kept(
    flags: Seq<Seq<char>>,
    keys: Seq<Seq<char>>,
    values: Seq<Seq<char>>,
    i: int,
)
    requires
        flags.len() == keys.len() == values.len(),
        forall|j: int|
            0 <= j < flags.len() ==> #[trigger] flags[j] == keys[j] + "="@ + values[j]
                && keys[j].len() > 0 && values[j].len() > 0 && !keys[j].contains('='),
        keys.no_duplicates(),
    ensures
        owner_labels(flags) matches Ok(t) && t.len() == flags.len() && (0 <= i < flags.len()
            ==> table::lookup(t, keys[i]) == Some(values[i])),
        forall|x: Seq<char>| #[trigger] keys.contains(x) || table::lookup(
            owner_labels(flags)->Ok_0,
            x,
        ) is None,
        0 <= i < flags.len() ==> owner_labels(flags.push(flags[i])) is Err,
        owner_labels(flags.push("="@)) is Err,
        forall|x: Seq<char>| !x.contains('=') ==> #[trigger] owner_labels(flags.push(x)) is Err,
    decreases flags.len(),
{
    reveal_strlit("=");
    if flags.len() > 0 {
        let k = flags.len() - 1;
        let (f, ks, vs) = (flags.drop_last(), keys.drop_last(), values.drop_last());
        assert forall|j: int| 0 <= j < f.len() implies #[trigger] f[j] == ks[j] + "="@ + vs[j]
            && ks[j].len() > 0 && vs[j].len() > 0 && !ks[j].contains('=') by {
            assert(f[j] == flags[j]);
        }
        lemma_every_owner_label_is_kept(f, ks, vs, i);
        assert(flags[k] == keys[k] + "="@ + values[k]);
        assert(flags[k] =~= keys[k].push('=') + values[k]);
        text::lemma_split_at_first(keys[k], '=', values[k]);
        let t = owner_labels(f)->Ok_0;
        assert(!ks.contains(keys[k])) by {
            if ks.contains(keys[k]) {
                let j = choose|j: int| 0 <= j < ks.len() && ks[j] == keys[k];
                assert(keys[j] == keys[k]);
            }
        }
        assert(table::lookup(t, keys[k]) is None);
        let all = table::inserted(t, keys[k], values[k]);
        assert(owner_labels(flags) == Ok::<Seq<(Seq<char>, Seq<char>)>, Seq<char>>(all));
        lemma_inserted_len(t, keys[k], values[k]);
        if 0 <= i < flags.len() {
            table::lemma_lookup_inserted(t, keys[k], values[k], keys[i]);
        }
        assert forall|x: Seq<char>| #[trigger] keys.contains(x) || table::lookup(all, x) is None by {
            if !keys.contains(x) {
                if ks.contains(x) {
                    let j = choose|j: int| 0 <= j < ks.len() && ks[j] == x;
                    assert(keys[j] == x);
                }
                assert(keys[k] != x) by {
                    if keys[k] == x {
                        assert(keys.contains(x));
                    }
                }
                table::lemma_lookup_inserted(t, keys[k], values[k], x);
            }
        }
    }
    assert forall|x: Seq<char>| true implies (#[trigger] flags.push(x)).drop_last() == flags by {
        assert(flags.push(x).drop_last() =~= flags);
    }
    if 0 <= i < flags.len() {
        assert(flags[i] == keys[i] + "="@ + values[i]);
        assert(flags[i] =~= keys[i].push('=') + values[i]);
        text::lemma_split_at_first(keys[i], '=', values[i]);
        assert(flags.push(flags[i]).drop_last() == flags);
    }
    assert("="@ =~= Seq::<char>::empty().push('=') + Seq::<char>::empty());
    text::lemma_split_at_first(Seq::empty(), '=', Seq::empty());
    assert(flags.push("="@).drop_last() == flags);
    assert forall|x: Seq<char>| !x.contains('=') implies #[trigger] owner_labels(
        flags.push(x),
    ) is Err by {
        text::lemma_find(x, '=');
        assert(flags.push(x).drop_last() == flags);
    }
}

proof fn lemma_inserted_len(t: Seq<(Seq<char>, Seq<char>)>, k: Seq<char>, v: Seq<char>)
    requires
        table::lookup(t, k) is None,
    ensures
        table::inserted(t, k, v).len() == t.len() + 1,
    decreases t.len(),
{
    if t.len() > 0 && !text::precedes(k, t[0].0) {
        lemma_inserted_len(t.skip(1), k, v);
    }
}

/// The labels of an owner come in the order of their keys, whatever the order of the flags, and
/// no key occurs twice.
pub proof fn lemma_owner_labels_are_sorted(flags: Seq<Seq<char>>)
    ensures
        owner_labels(flags) matches Ok(t) ==> table::sorted(t),
    decreases flags.len(),
{
    if flags.len() > 0 {
        lemma_owner_labels_are_sorted(flags.drop_last());
        match owner_labels(flags.drop_last()) {
            Ok(t) => match text::split_at_first(flags.last(), '=') {
                Some((k, v)) => {
                    table::lemma_sorted(t, k, v);
                },
                None => {},
            },
            Err(_) => {},
        }
    }
}

// ---------------------------------------------------------------------------
// Targets
// ---------------------------------------------------------------------------

/// The VM that a command is about.
pub enum Target {
    Named(String),
    /// The VM of the current directory.
    Here,
}

pub enum TargetView {
    Named(Seq<char>),
    Here,
}

impl View for Target {
    type V = TargetView;

    open spec fn view(&self) -> TargetView {
        match self {
            Target::Named(n) => TargetView::Named(n@),
            Target::Here => TargetView::Here,
        }
    }
}

/// What `wtx exec` runs, and where. Without `--name`, a first word that names a VM is taken for
/// one only if a command follows it.
pub open spec fn exec_of(
    explicit: Option<Seq<char>>,
    words: Seq<Seq<char>>,
    first_is_vm: bool,
) -> (TargetView, Seq<Seq<char>>) {
    match explicit {
        Some(n) => (TargetView::Named(n), words),
        None => if words.len() >= 2 && first_is_vm {
            (TargetView::Named(words[0]), words.skip(1))
        } else {
            (TargetView::Here, words)
        },
    }
}

/// The words of a command all run, in their order: none is lost but a first word that is taken for
/// the VM's name, which needs a command behind it and no `--name`.
pub proof fn lemma_command_is_kept(
    name: Seq<char>,
    first: Seq<char>,
    command: Seq<Seq<char>>,
    first_is_vm: bool,
)
    ensures
        exec_of(Some(name), command, first_is_vm) == (TargetView::Named(name), command),
        command.len() > 0 ==> exec_of(None, seq![first] + command, true) == (
            TargetView::Named(first),
            command,
        ),
        exec_of(None, command, false) == (TargetView::Here, command),
        exec_of(None, seq![first], first_is_vm) == (TargetView::Here, seq![first]),
{
    assert((seq![first] + command).skip(1) =~= command);
}

pub fn exec_target(explicit: Option<&str>, words: Vec<String>, first_is_vm: bool) -> (r: (
    Target,
    Vec<String>,
))
    ensures
        (r.0@, text::texts(r.1@)) == exec_of(
            util::opt_view(explicit),
            text::texts(words@),
            first_is_vm,
        ),
{
    match explicit {
        Some(n) => (Target::Named(n.to_owned()), words),
        None => {
            if words.len() >= 2 && first_is_vm {
                let ghost all = text::texts(words@);
                let mut rest: Vec<String> = words;
                let first: String = rest.remove(0);
                assert(text::texts(rest@) =~= all.skip(1));
                assert(first@ == all[0]);
                (Target::Named(first), rest)
            } else {
                (Target::Here, words)
            }
        },
    }
}

/// The directory in the VM where a command runs: the requested one, the current one if it lies in
/// the VM's working directory, or else that working directory.
pub open spec fn guest_dir(
    requested: Option<Seq<char>>,
    cwd: Option<Seq<char>>,
    workdir: Seq<char>,
) -> Seq<char> {
    match requested {
        Some(d) => d,
        None => match cwd {
            Some(c) => if path::within(c, workdir) {
                c
            } else {
                workdir
            },
            None => workdir,
        },
    }
}

/// A command runs where it was asked for; else where the user stands, if that is inside the VM's
/// working directory; else in the working directory.
pub proof fn lemma_guest_dir(d: Seq<char>, cwd: Option<Seq<char>>, workdir: Seq<char>)
    ensures
        guest_dir(Some(d), cwd, workdir) == d,
        guest_dir(None, None, workdir) == workdir,
        guest_dir(None, Some(workdir), workdir) == workdir,
        cwd matches Some(c) ==> guest_dir(None, cwd, workdir) == (if path::components(c).len()
            >= path::components(workdir).len() && path::components(c).take(
            path::components(workdir).len() as int,
        ) == path::components(workdir) {
            c
        } else {
            workdir
        }),
{
}

pub fn default_guest_workdir(requested: Option<String>, cwd: Option<&str>, workdir: &str) -> (r: String)
    ensures
        r@ == guest_dir(opt_text(requested), util::opt_view(cwd), workdir@),
{
    match requested {
        Some(d) => d,
        None => match cwd {
            Some(c) => if path::starts_with(c, workdir) {
                c.to_owned()
            } else {
                workdir.to_owned()
            },
            None => workdir.to_owned(),
        },
    }
}

/// A value for a VM: with `--name` or in a worktree one argument, and in the old form the VM's
/// name before it.
pub open spec fn value_of(explicit: Option<Seq<char>>, args: Seq<Seq<char>>) -> Result<
    (TargetView, Seq<char>),
    Seq<char>,
> {
    match explicit {
        Some(n) => if args.len() == 1 {
            Ok((TargetView::Named(n), args[0]))
        } else {
            Err("pass one value when --name is used"@)
        },
        None => if args.len() == 1 {
            Ok((TargetView::Here, args[0]))
        } else if args.len() == 2 {
            Ok((TargetView::Named(args[0]), args[1]))
        } else {
            Err("expected VALUE or legacy NAME VALUE"@)
        },
    }
}

/// A value is taken as it is, for the VM that is named by `--name` or before it, and for the one of
/// the current directory where none is.
pub proof fn lemma_value(n: Seq<char>, v: Seq<char>, more: Seq<Seq<char>>)
    ensures
        value_of(Some(n), seq![v]) == Ok::<(TargetView, Seq<char>), Seq<char>>(
            (TargetView::Named(n), v),
        ),
        value_of(None, seq![v]) == Ok::<(TargetView, Seq<char>), Seq<char>>((TargetView::Here, v)),
        value_of(None, seq![n, v]) == Ok::<(TargetView, Seq<char>), Seq<char>>(
            (TargetView::Named(n), v),
        ),
        more.len() != 1 ==> value_of(Some(n), more) is Err,
        more.len() == 0 || more.len() > 2 ==> value_of(None, more) is Err,
{
}

pub fn named_value(explicit: Option<&str>, args: &Vec<String>) -> (r: Result<(Target, String), String>)
    ensures
        match value_of(util::opt_view(explicit), text::texts(args@)) {
            Ok((t, v)) => r matches Ok(x) && x.0@ == t && x.1@ == v,
            Err(e) => r matches Err(x) && x@ == e,
        },
{
    assert(text::texts(args@).len() == args@.len());
    match explicit {
        Some(n) => if args.len() == 1 {
            Ok((Target::Named(n.to_owned()), args[0].clone()))
        } else {
            Err("pass one value when --name is used".to_owned())
        },
        None => if args.len() == 1 {
            Ok((Target::Here, args[0].clone()))
        } else if args.len() == 2 {
            Ok((Target::Named(args[0].clone()), args[1].clone()))
        } else {
            Err("expected VALUE or legacy NAME VALUE".to_owned())
        },
    }
}

/// What `wtx up` and `wtx ensure` are about.
pub enum UpTarget {
    /// A directory, from which the VM's name is derived.
    Dir(String),
    /// A VM and its directory.
    Both(String, String),
    /// A VM in its recorded directory, or else in the current one.
    Name(String),
    /// The VM that covers the current directory, or a new one for it.
    Here,
}

pub enum UpTargetView {
    Dir(Seq<char>),
    Both(Seq<char>, Seq<char>),
    Name(Seq<char>),
    Here,
}

impl View for UpTarget {
    type V = UpTargetView;

    open spec fn view(&self) -> UpTargetView {
        match self {
            UpTarget::Dir(d) => UpTargetView::Dir(d@),
            UpTarget::Both(n, d) => UpTargetView::Both(n@, d@),
            UpTarget::Name(n) => UpTargetView::Name(n@),
            UpTarget::Here => UpTargetView::Here,
        }
    }
}

/// A single argument counts as a directory if it holds a slash, or if it is one and names no VM.
pub open spec fn up_target_of(
    name: Option<Seq<char>>,
    workdir: Option<Seq<char>>,
    is_dir: bool,
    is_vm: bool,
) -> UpTargetView {
    match name {
        None => UpTargetView::Here,
        Some(n) => match workdir {
            Some(w) => UpTargetView::Both(n, w),
            None => if n.contains('/') || (is_dir && !is_vm) {
                UpTargetView::Dir(n)
            } else {
                UpTargetView::Name(n)
            },
        },
    }
}

/// What is started is what was named: a name with a directory as both, a text with a slash as a
/// directory and never as a VM, a VM's name as that VM also where a directory is called so, and the
/// current directory where nothing is named.
pub proof fn lemma_up_target(n: Seq<char>, w: Seq<char>, is_dir: bool, is_vm: bool)
    ensures
        up_target_of(None, None, is_dir, is_vm) == UpTargetView::Here,
        up_target_of(Some(n), Some(w), is_dir, is_vm) == UpTargetView::Both(n, w),
        n.contains('/') ==> up_target_of(Some(n), None, is_dir, is_vm) == UpTargetView::Dir(n),
        !n.contains('/') && is_vm ==> up_target_of(Some(n), None, is_dir, is_vm)
            == UpTargetView::Name(n),
        !n.contains('/') && !is_vm && is_dir ==> up_target_of(Some(n), None, is_dir, is_vm)
            == UpTargetView::Dir(n),
        !n.contains('/') && !is_dir ==> up_target_of(Some(n), None, is_dir, is_vm)
            == UpTargetView::Name(n),
{
}

pub fn up_target(name: Option<String>, workdir: Option<String>, is_dir: bool, is_vm: bool) -> (r: UpTarget)
    ensures
        r@ == up_target_of(opt_text(name), opt_text(workdir), is_dir, is_vm),
{
    match name {
        None => UpTarget::Here,
        Some(n) => match workdir {
            Some(w) => UpTarget::Both(n, w),
            None => if text::contains_char(n.as_str(), '/') || (is_dir && !is_vm) {
                UpTarget::Dir(n)
            } else {
                UpTarget::Name(n)
            },
        },
    }
}

/// The directory of a VM that is given by its name: the recorded one, or the current one.
pub open spec fn recorded_dir(record: Option<MetaView>) -> Seq<char> {
    match record {
        Some(m) => if m.workdir.len() == 0 {
            "."@
        } else {
            m.workdir
        },
        None => "."@,
    }
}

pub fn reattach_dir(record: Option<&InstanceMeta>) -> (r: String)
    ensures
        r@ == recorded_dir(lima::opt_meta_ref(record)),
{
    match record {
        Some(m) => if m.workdir.as_str().is_empty() {
            ".".to_owned()
        } else {
            m.workdir.clone()
        },
        None => ".".to_owned(),
    }
}

/// The VM that covers the current directory with its working directory; `None` if none does, and
/// an error if several do.
pub fn covering_target(found: &Vec<Known>) -> (r: Result<Option<(String, String)>, String>)
    ensures
        if found@.len() == 0 {
            r matches Ok(None)
        } else if found@.len() == 1 {
            r matches Ok(Some(x)) && x.0@ == context::known(found@)[0].0 && x.1@ == context::known(
                found@,
            )[0].1.workdir
        } else {
            r matches Err(e) && e@ == "multiple VMs cover this directory: "@ + text::joined(
                context::names_of(context::known(found@)),
                ", "@,
            ) + " (pass NAME)"@
        },
{
    if found.len() == 0 {
        return Ok(None);
    }
    match context::resolve(None, None, "", found) {
        Ok((name, meta)) => Ok(Some((name, meta.workdir))),
        Err(e) => Err(e),
    }
}

} // verus!
