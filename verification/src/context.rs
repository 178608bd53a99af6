//! Finding the VM of a command: by its name, or by the current directory.
use vstd::prelude::*;

use crate::lima::{self, InstanceMeta, MetaView};
use crate::path;
use crate::text;
use crate::util;

verus! {

/// A VM with its record.
pub type Known = (String, InstanceMeta);

pub open spec fn known(v: Seq<(String, InstanceMeta)>) -> Seq<(Seq<char>, MetaView)> {
    Seq::new(v.len(), |i: int| (v[i].0@, v[i].1@))
}

/// The name of the VM whose record a file may hold: what stands before `.json`.
pub open spec fn record_name(file: Seq<char>) -> Option<Seq<char>> {
    match path::name_of(file) {
        Some(f) => match text::without_suffix(f, ".json"@) {
            Some(stem) => if stem.len() == 0 {
                None
            } else {
                Some(stem)
            },
            None => None,
        },
        None => None,
    }
}

/// The file that keeps a VM's record is told by its name to be that VM's, and the files beside it
/// are not.
pub proof fn lemma_record_is_found_again(home: Seq<char>, name: Seq<char>)
    requires
        path::tidy(home),
        name.len() > 0,
        !name.contains('/'),
    ensures
        record_name(lima::record_path(home, name)) == Some(name),
        record_name(lima::yaml_path_of(home, name)) is None,
        lima::record_path(home, name) == home + "/.wtx/"@ + name + ".json"@,
        lima::yaml_path_of(home, name) == home + "/.wtx/"@ + name + ".yaml"@,
{
    reveal_strlit(".json");
    reveal_strlit(".yaml");
    reveal_strlit(".wtx");
    reveal_strlit("/.wtx/");
    reveal_strlit("/");
    reveal_strlit(".");
    reveal_strlit("..");
    let file = name + ".json"@;
    let other = name + ".yaml"@;
    path::lemma_entry_of_directory(home, ".wtx"@);
    let dir = home + "/"@ + ".wtx"@;
    assert(!file.contains('/')) by {
        if file.contains('/') {
            let i = choose|i: int| 0 <= i < file.len() && file[i] == '/';
            if i < name.len() {
                assert(name[i] == '/');
            }
        }
    }
    assert(!other.contains('/')) by {
        if other.contains('/') {
            let i = choose|i: int| 0 <= i < other.len() && other[i] == '/';
            if i < name.len() {
                assert(name[i] == '/');
            }
        }
    }
    path::lemma_entry_of_directory(dir, file);
    path::lemma_entry_of_directory(dir, other);
    assert(file.skip(file.len() - 5) =~= ".json"@);
    assert(file.take(file.len() - 5) =~= name);
    assert(other.skip(other.len() - 5) =~= ".yaml"@);
    assert(".json"@[1] == 'j' && ".yaml"@[1] == 'y');
    assert(dir + "/"@ + file =~= home + "/.wtx/"@ + name + ".json"@);
    assert(dir + "/"@ + other =~= home + "/.wtx/"@ + name + ".yaml"@);
}

pub fn instance_of_file(file: &str) -> (r: Option<String>)
    ensures
        r is Some == record_name(file@) is Some,
        r matches Some(n) ==> record_name(file@) == Some(n@),
{
    match path::file_name(file) {
        Some(f) => match text::strip_suffix(f.as_str(), ".json") {
            Some(stem) => if stem.is_empty() {
                None
            } else {
                Some(stem.to_owned())
            },
            None => None,
        },
        None => None,
    }
}

/// The entries that are records of VMs: those with a working directory.
pub open spec fn records(v: Seq<(Seq<char>, MetaView)>) -> Seq<(Seq<char>, MetaView)>
    decreases v.len(),
{
    if v.len() == 0 {
        v
    } else if v.last().1.workdir.len() == 0 {
        records(v.drop_last())
    } else {
        records(v.drop_last()).push(v.last())
    }
}

/// Keep the records of VMs among what was read from wtx's directory; other JSON files name no
/// working directory.
pub fn all_metas(read: &Vec<Known>) -> (r: Vec<Known>)
    ensures
        known(r@) == records(known(read@)),
{
    let mut out: Vec<Known> = Vec::new();
    let ghost t = known(read@);
    let mut i: usize = 0;
    assert(known(out@) =~= records(t.take(0)));
    while i < read.len()
        invariant
            i <= read@.len(),
            t == known(read@),
            known(out@) == records(t.take(i as int)),
        decreases read@.len() - i,
    {
        assert(t.take(i + 1).drop_last() =~= t.take(i as int));
        assert(t.take(i + 1).last() == t[i as int]);
        if !read[i].1.workdir.as_str().is_empty() {
            let ghost before = known(out@);
            let (name, meta) = (read[i].0.clone(), read[i].1.clone());
            let ghost x = (name@, meta@);
            out.push((name, meta));
            assert(known(out@) =~= before.push(x));
        }
        i += 1;
    }
    assert(t.take(i as int) =~= t);
    out
}

/// Exactly the entries with a working directory are kept, in their order.
pub proof fn lemma_records_have_a_directory(v: Seq<(Seq<char>, MetaView)>)
    ensures
        records(v) == v.filter(|x: (Seq<char>, MetaView)| x.1.workdir.len() > 0),
    decreases v.len(),
{
    reveal(Seq::filter);
    if v.len() > 0 {
        lemma_records_have_a_directory(v.drop_last());
    }
}

/// Whether a directory is the working directory or lies below it.
pub open spec fn covers(workdir: Seq<char>, dir: Seq<char>) -> bool {
    dir == workdir || text::has_prefix(dir, workdir + "/"@)
}

/// The length of the longest working directory that covers the directory.
pub open spec fn longest(v: Seq<(Seq<char>, MetaView)>, dir: Seq<char>) -> nat
    decreases v.len(),
{
    if v.len() == 0 {
        0
    } else {
        let before = longest(v.drop_last(), dir);
        let w = v.last().1.workdir;
        if covers(w, dir) && w.len() > before {
            w.len()
        } else {
            before
        }
    }
}

/// The VMs whose working directory covers the directory and is of the given length.
pub open spec fn covering(v: Seq<(Seq<char>, MetaView)>, dir: Seq<char>, n: nat) -> Seq<
    (Seq<char>, MetaView),
>
    decreases v.len(),
{
    if v.len() == 0 {
        v
    } else {
        let before = covering(v.drop_last(), dir, n);
        if covers(v.last().1.workdir, dir) && v.last().1.workdir.len() == n {
            before.push(v.last())
        } else {
            before
        }
    }
}

/// The VMs that cover a directory most closely, all of them if several tie.
pub open spec fn closest(v: Seq<(Seq<char>, MetaView)>, dir: Seq<char>) -> Seq<
    (Seq<char>, MetaView),
> {
    covering(v, dir, longest(v, dir))
}

proof fn lemma_covering_longer(v: Seq<(Seq<char>, MetaView)>, dir: Seq<char>, n: nat)
    requires
        n > longest(v, dir),
    ensures
        covering(v, dir, n) == Seq::<(Seq<char>, MetaView)>::empty(),
    decreases v.len(),
{
    if v.len() > 0 {
        lemma_covering_longer(v.drop_last(), dir, n);
    } else {
        assert(v =~= Seq::empty());
    }
}

/// Find the VMs whose working directory contains the current directory, by the longest working
/// directory. All that tie are returned, so that the caller can report the ambiguity.
pub fn covering_cwd(cwd: &str, metas: &Vec<Known>) -> (r: Vec<Known>)
    ensures
        known(r@) == closest(known(metas@), cwd@),
{
    let mut best: Vec<Known> = Vec::new();
    let mut best_len: usize = 0;
    let ghost t = known(metas@);
    let mut i: usize = 0;
    assert(known(best@) =~= closest(t.take(0), cwd@));
    while i < metas.len()
        invariant
            i <= metas@.len(),
            t == known(metas@),
            best_len == longest(t.take(i as int), cwd@),
            known(best@) == covering(t.take(i as int), cwd@, best_len as nat),
        decreases metas@.len() - i,
    {
        assert(t.take(i + 1).drop_last() =~= t.take(i as int));
        assert(t.take(i + 1).last() == t[i as int]);
        let workdir: &str = metas[i].1.workdir.as_str();
        let prefix: String = workdir.to_owned().concat("/");
        if text::same(cwd, workdir) || text::starts_with(cwd, prefix.as_str()) {
            let n: usize = workdir.unicode_len();
            if n >= best_len {
                proof {
                    if n > best_len {
                        lemma_covering_longer(t.take(i as int), cwd@, n as nat);
                    }
                }
                if n > best_len {
                    best_len = n;
                    best = Vec::new();
                    assert(known(best@) =~= Seq::empty());
                }
                let ghost before = known(best@);
                let (name, meta) = (metas[i].0.clone(), metas[i].1.clone());
                let ghost x = (name@, meta@);
                best.push((name, meta));
                assert(known(best@) =~= before.push(x));
            }
        }
        i += 1;
    }
    assert(t.take(i as int) =~= t);
    best
}

/// Every VM found covers the directory, and no VM covers it more closely.
pub proof fn lemma_closest(v: Seq<(Seq<char>, MetaView)>, dir: Seq<char>, n: nat)
    ensures
        forall|i: int|
            0 <= i < covering(v, dir, n).len() ==> {
                let x = #[trigger] covering(v, dir, n)[i];
                v.contains(x) && covers(x.1.workdir, dir) && x.1.workdir.len() == n
            },
        forall|i: int|
            0 <= i < v.len() && covers((#[trigger] v[i]).1.workdir, dir) ==> v[i].1.workdir.len()
                <= longest(v, dir),
        forall|i: int|
            0 <= i < v.len() && covers((#[trigger] v[i]).1.workdir, dir) && v[i].1.workdir.len()
                == n ==> covering(v, dir, n).contains(v[i]),
    decreases v.len(),
{
    if v.len() > 0 {
        let f = v.drop_last();
        lemma_closest(f, dir, n);
        let c = covering(v, dir, n);
        let b = covering(f, dir, n);
        assert forall|i: int| 0 <= i < c.len() implies {
            let x = #[trigger] c[i];
            v.contains(x) && covers(x.1.workdir, dir) && x.1.workdir.len() == n
        } by {
            if i < b.len() {
                assert(c[i] == b[i]);
                let k = choose|k: int| 0 <= k < f.len() && f[k] == b[i];
                assert(v[k] == b[i]);
            } else {
                assert(c[i] == v[v.len() - 1]);
            }
        }
        assert forall|i: int|
            0 <= i < v.len() && covers((#[trigger] v[i]).1.workdir, dir) && v[i].1.workdir.len()
                == n implies c.contains(v[i]) by {
            if i < f.len() {
                assert(f[i] == v[i]);
                let k = choose|k: int| 0 <= k < b.len() && b[k] == v[i];
                assert(c[k] == v[i]);
            } else {
                assert(c[c.len() - 1] == v[i]);
            }
        }
        assert forall|i: int|
            0 <= i < v.len() && covers((#[trigger] v[i]).1.workdir, dir) implies v[i].1.workdir.len()
            <= longest(v, dir) by {
            if i < f.len() {
                assert(f[i] == v[i]);
            }
        }
    }
}

proof fn lemma_longest_is_there(v: Seq<(Seq<char>, MetaView)>, dir: Seq<char>)
    ensures
        longest(v, dir) == 0 || exists|i: int|
            0 <= i < v.len() && covers((#[trigger] v[i]).1.workdir, dir) && v[i].1.workdir.len()
                == longest(v, dir),
    decreases v.len(),
{
    if v.len() > 0 {
        let f = v.drop_last();
        lemma_longest_is_there(f, dir);
        if longest(v, dir) != 0 && longest(v, dir) == longest(f, dir) {
            let i = choose|i: int|
                0 <= i < f.len() && covers((#[trigger] f[i]).1.workdir, dir)
                    && f[i].1.workdir.len() == longest(f, dir);
            assert(v[i] == f[i]);
        } else if longest(v, dir) != 0 {
            assert(v[v.len() - 1] == v.last());
        }
    }
}

/// A VM is found for a directory exactly if its working directory is that directory or one above
/// it, and no other VM's working directory is closer.
pub proof fn lemma_found_are_the_closest(
    v: Seq<(Seq<char>, MetaView)>,
    dir: Seq<char>,
    x: (Seq<char>, MetaView),
)
    requires
        x.1.workdir.len() > 0,
    ensures
        closest(v, dir).contains(x) <==> v.contains(x) && (dir == x.1.workdir
            || exists|rest: Seq<char>| dir == #[trigger] (x.1.workdir + "/"@ + rest)) && (forall|
            i: int,
        |
            0 <= i < v.len() && ((#[trigger] v[i]).1.workdir == dir || text::has_prefix(
                dir,
                v[i].1.workdir + "/"@,
            )) ==> v[i].1.workdir.len() <= x.1.workdir.len()),
{
    let n = longest(v, dir);
    let w = x.1.workdir;
    lemma_closest(v, dir, n);
    lemma_longest_is_there(v, dir);
    if text::has_prefix(dir, w + "/"@) {
        let p = w + "/"@;
        assert(dir =~= p + dir.skip(p.len() as int));
    }
    assert forall|rest: Seq<char>| dir == #[trigger] (w + "/"@ + rest) implies covers(w, dir) by {
        assert(dir.take((w + "/"@).len() as int) =~= w + "/"@);
    }
    let c = covering(v, dir, n);
    if c.contains(x) {
        let i = choose|i: int| 0 <= i < c.len() && c[i] == x;
        assert(covers(c[i].1.workdir, dir));
        assert forall|k: int|
            0 <= k < v.len() && ((#[trigger] v[k]).1.workdir == dir || text::has_prefix(
                dir,
                v[k].1.workdir + "/"@,
            )) implies v[k].1.workdir.len() <= w.len() by {
            assert(covers(v[k].1.workdir, dir));
        }
    }
    if v.contains(x) && covers(w, dir) {
        let i = choose|i: int| 0 <= i < v.len() && v[i] == x;
        assert(covers(v[i].1.workdir, dir));
        if n != 0 {
            let k = choose|k: int|
                0 <= k < v.len() && covers((#[trigger] v[k]).1.workdir, dir)
                    && v[k].1.workdir.len() == n;
            assert(v[k].1.workdir == dir || text::has_prefix(dir, v[k].1.workdir + "/"@));
        }
    }
}

/// The names of VMs.
pub open spec fn names_of(v: Seq<(Seq<char>, MetaView)>) -> Seq<Seq<char>> {
    Seq::new(v.len(), |i: int| v[i].0)
}

/// The VM that a command means: the named one, or the one that covers the current directory. An
/// ambiguity is an error; nothing is guessed.
pub open spec fn resolution(
    explicit: Option<Seq<char>>,
    record: Option<MetaView>,
    cwd: Seq<char>,
    found: Seq<(Seq<char>, MetaView)>,
) -> Result<(Seq<char>, MetaView), Seq<char>> {
    match explicit {
        Some(name) => match record {
            Some(m) => Ok((name, m)),
            None => Err("no metadata for "@ + name + " (is it a wtx VM?)"@),
        },
        None => if found.len() == 0 {
            Err(
                "no wtx VM covers "@ + cwd
                    + " (run inside a worktree that has one, or pass NAME)"@,
            )
        } else if found.len() == 1 {
            Ok(found[0])
        } else {
            Err(
                "multiple VMs cover this directory: "@ + text::joined(names_of(found), ", "@)
                    + " (pass NAME)"@,
            )
        },
    }
}

/// A command means the named VM if one is named, and otherwise the only VM that was found: the
/// record is that VM's own. With no record of the named VM, with none found or with several, it
/// means none.
pub proof fn lemma_nothing_is_guessed(
    explicit: Option<Seq<char>>,
    record: Option<MetaView>,
    cwd: Seq<char>,
    found: Seq<(Seq<char>, MetaView)>,
)
    ensures
        explicit matches Some(name) ==> {
            &&& record matches Some(m) ==> resolution(explicit, record, cwd, found) == Ok::<
                (Seq<char>, MetaView),
                Seq<char>,
            >((name, m))
            &&& record is None ==> resolution(explicit, record, cwd, found) is Err
        },
        explicit is None ==> {
            &&& found.len() == 1 ==> resolution(explicit, record, cwd, found) == Ok::<
                (Seq<char>, MetaView),
                Seq<char>,
            >(found[0])
            &&& found.len() != 1 ==> resolution(explicit, record, cwd, found) is Err
        },
{
}

pub fn no_metadata(name: &str) -> (r: String)
    ensures
        r@ == "no metadata for "@ + name@ + " (is it a wtx VM?)"@,
{
    "no metadata for ".to_owned().concat(name).concat(" (is it a wtx VM?)")
}

/// Decide which VM a command means, from the record under the given name or the VMs that cover
/// the current directory.
pub fn resolve(
    explicit: Option<&str>,
    record: Option<InstanceMeta>,
    cwd: &str,
    found: &Vec<Known>,
) -> (r: Result<Known, String>)
    ensures
        match resolution(util::opt_view(explicit), lima::opt_meta(record), cwd@, known(found@)) {
            Ok((name, m)) => r matches Ok(x) && x.0@ == name && x.1@ == m,
            Err(e) => r matches Err(x) && x@ == e,
        },
{
    match explicit {
        Some(name) => match record {
            Some(m) => Ok((name.to_owned(), m)),
            None => Err(no_metadata(name)),
        },
        None => {
            if found.len() == 0 {
                return Err(
                    "no wtx VM covers ".to_owned().concat(cwd).concat(
                        " (run inside a worktree that has one, or pass NAME)",
                    ),
                );
            }
            if found.len() == 1 {
                assert(known(found@)[0] == (found@[0].0@, found@[0].1@));
                return Ok((found[0].0.clone(), found[0].1.clone()));
            }
            let mut names: Vec<String> = Vec::new();
            let ghost all = names_of(known(found@));
            let mut i: usize = 0;
            assert(text::texts(names@) =~= all.take(0));
            while i < found.len()
                invariant
                    i <= found@.len(),
                    all == names_of(known(found@)),
                    text::texts(names@) == all.take(i as int),
                decreases found@.len() - i,
            {
                text::push_text(&mut names, found[i].0.as_str());
                assert(all.take(i + 1) =~= all.take(i as int).push(all[i as int]));
                i += 1;
            }
            assert(all.take(i as int) =~= all);
            let list: String = text::join(&names, ", ");
            Err(
                "multiple VMs cover this directory: ".to_owned().concat(list.as_str()).concat(
                    " (pass NAME)",
                ),
            )
        },
    }
}

} // verus!
