//! Unix paths as texts.
use vstd::prelude::*;

use crate::text;

verus! {

pub open spec fn absolute(p: Seq<char>) -> bool {
    p.len() > 0 && p[0] == '/'
}

/// The path of an entry below a directory. An absolute entry stands for itself.
pub open spec fn below(dir: Seq<char>, entry: Seq<char>) -> Seq<char> {
    if absolute(entry) {
        entry
    } else if dir.len() == 0 || dir.last() == '/' {
        dir + entry
    } else {
        dir + "/"@ + entry
    }
}

/// The path without separators and `.` components at its end.
pub open spec fn tail_trimmed(p: Seq<char>) -> Seq<char>
    decreases p.len(),
{
    if p.len() >= 2 && p.last() == '/' {
        tail_trimmed(p.drop_last())
    } else if p.len() >= 2 && p.last() == '.' && p[p.len() - 2] == '/' {
        tail_trimmed(p.drop_last())
    } else {
        p
    }
}

/// What stands behind the last separator.
pub open spec fn last_part(p: Seq<char>) -> Seq<char> {
    match text::split_at_last(p, "/"@) {
        Some((_, name)) => name,
        None => p,
    }
}

/// The last component, unless it is `.`, `..` or the root.
pub open spec fn name_of(p: Seq<char>) -> Option<Seq<char>> {
    let name = last_part(tail_trimmed(p));
    if name.len() == 0 || name == "."@ || name == ".."@ {
        None
    } else {
        Some(name)
    }
}

/// The path without its last component.
pub open spec fn parent_of(p: Seq<char>) -> Option<Seq<char>> {
    let t = tail_trimmed(p);
    if t.len() == 0 || t == "/"@ {
        None
    } else {
        match text::split_at_last(t, "/"@) {
            Some((dir, _)) => Some(tail_trimmed(dir + "/"@)),
            None => Some(Seq::empty()),
        }
    }
}

/// The pieces that are neither empty nor `.`.
pub open spec fn named_parts(parts: Seq<Seq<char>>) -> Seq<Seq<char>>
    decreases parts.len(),
{
    if parts.len() == 0 {
        parts
    } else if parts.last().len() == 0 || parts.last() == "."@ {
        named_parts(parts.drop_last())
    } else {
        named_parts(parts.drop_last()).push(parts.last())
    }
}

/// Whether the path is relative and begins with a `.` component.
pub open spec fn dotted(p: Seq<char>) -> bool {
    text::pieces(p, '/')[0] == "."@
}

/// The components of a path: the root or a leading `.`, and then the named ones.
pub open spec fn components(p: Seq<char>) -> Seq<Seq<char>> {
    (if absolute(p) {
        seq!["/"@]
    } else {
        Seq::empty()
    }) + (if dotted(p) {
        seq!["."@]
    } else {
        Seq::empty()
    }) + named_parts(text::pieces(p, '/'))
}

/// Whether two paths have the same components.
pub open spec fn same(a: Seq<char>, b: Seq<char>) -> bool {
    components(a) == components(b)
}

/// Whether a path begins with the components of a directory.
pub open spec fn within(p: Seq<char>, dir: Seq<char>) -> bool {
    let d = components(dir);
    d.len() <= components(p).len() && components(p).take(d.len() as int) == d
}

/// Whether a path ends in neither a separator nor a `.` component.
pub open spec fn tidy(p: Seq<char>) -> bool {
    &&& p.len() > 0
    &&& p.last() != '/'
    &&& !(p.len() >= 2 && p.last() == '.' && p[p.len() - 2] == '/')
}

/// Whether a text can be the name of a directory's entry.
pub open spec fn entry_name(n: Seq<char>) -> bool {
    n.len() > 0 && !n.contains('/') && n != "."@ && n != ".."@
}

/// An entry of a directory has the directory as its parent and its own name as its last component,
/// whatever is above them and with separators behind it or not.
pub proof fn lemma_entry_of_directory(dir: Seq<char>, name: Seq<char>)
    requires
        tidy(dir),
        entry_name(name),
    ensures
        below(dir, name) == dir + "/"@ + name,
        name_of(dir + "/"@ + name) == Some(name),
        name_of(dir + "/"@ + name + "/"@) == Some(name),
        parent_of(dir + "/"@ + name) == Some(dir),
        name_of(name) == Some(name),
        tidy(dir + "/"@ + name),
{
    reveal_strlit("/");
    reveal_strlit(".");
    assert("/"@ =~= seq!['/']);
    let p = dir + "/"@ + name;
    assert(p =~= dir.push('/') + name);
    assert(name.last() != '/') by {
        if name.last() == '/' {
            assert(name[name.len() - 1] == '/');
        }
    }
    if absolute(name) {
        assert(name[0] == '/');
    }
    assert(p.last() == name.last());
    if p.last() == '.' && p[p.len() - 2] == '/' {
        if name.len() == 1 {
            assert(name =~= "."@);
        } else {
            assert(name[name.len() - 2] == '/');
        }
    }
    assert(tail_trimmed(p) == p);
    assert((p + "/"@).drop_last() =~= p);
    assert((p + "/"@).last() == '/');
    assert(tail_trimmed(p + "/"@) == tail_trimmed(p));
    text::lemma_split_at_last(dir, '/', name);
    assert((dir + "/"@).drop_last() =~= dir);
    assert((dir + "/"@).last() == '/');
    assert(tail_trimmed(dir) == dir);
    assert(tail_trimmed(dir + "/"@) == dir);
    if name.len() >= 2 && name.last() == '.' && name[name.len() - 2] == '/' {
        assert(name.contains('/'));
    }
    assert(tail_trimmed(name) == name);
    assert(p != "/"@);
}

proof fn lemma_named_parts(parts: Seq<Seq<char>>)
    ensures
        named_parts(parts) == parts.filter(|x: Seq<char>| x.len() > 0 && x != "."@),
        (forall|i: int| 0 <= i < parts.len() ==> (#[trigger] parts[i]).len() > 0 && parts[i] != "."@)
            ==> named_parts(parts) == parts,
    decreases parts.len(),
{
    reveal(Seq::filter);
    if parts.len() > 0 {
        let f = parts.drop_last();
        lemma_named_parts(f);
        if forall|i: int|
            0 <= i < parts.len() ==> (#[trigger] parts[i]).len() > 0 && parts[i] != "."@ {
            assert(forall|i: int| 0 <= i < f.len() ==> f[i] == parts[i]);
            assert(parts[parts.len() - 1] == parts.last());
            assert(named_parts(parts) =~= parts);
        }
    }
}

proof fn lemma_named_parts_behind(first: Seq<char>, parts: Seq<Seq<char>>)
    requires
        first.len() == 0,
    ensures
        named_parts(seq![first] + parts) == named_parts(parts),
    decreases parts.len(),
{
    let all = seq![first] + parts;
    if parts.len() == 0 {
        assert(all.last() == first);
        assert(all.drop_last() =~= parts);
    } else {
        lemma_named_parts_behind(first, parts.drop_last());
        assert(all.last() == parts.last());
        assert(all.drop_last() =~= seq![first] + parts.drop_last());
    }
}

/// The components of an absolute path are the root and then the names on the way, all of them and in
/// their order.
pub proof fn lemma_components_are_the_names(parts: Seq<Seq<char>>)
    requires
        parts.len() > 0,
        forall|i: int| 0 <= i < parts.len() ==> entry_name(#[trigger] parts[i]),
    ensures
        components("/"@ + text::joined(parts, "/"@)) == seq!["/"@] + parts,
{
    reveal_strlit("/");
    reveal_strlit(".");
    assert("/"@ =~= seq!['/']);
    let rest = text::joined(parts, "/"@);
    let p = "/"@ + rest;
    assert forall|i: int| 0 <= i < parts.len() implies !(#[trigger] parts[i]).contains('/') by {
        assert(entry_name(parts[i]));
    }
    crate::util::lemma_pieces_of_joined(parts, '/');
    let none = Seq::<char>::empty();
    assert(p =~= none.push('/') + rest);
    text::lemma_split_at_first(none, '/', rest);
    let all = text::pieces(p, '/');
    assert(all == seq![none] + parts);
    lemma_named_parts_behind(none, parts);
    assert forall|i: int| 0 <= i < parts.len() implies (#[trigger] parts[i]).len() > 0 && parts[i]
        != "."@ by {
        assert(entry_name(parts[i]));
    }
    lemma_named_parts(parts);
    assert(all[0].len() == 0);
    assert(components(p) =~= seq!["/"@] + parts);
}

/// A path lies within a directory exactly if the names on the way to the directory are the first on
/// the way to it; and two paths are the same if all their names are.
pub proof fn lemma_within_goes_by_names(parts: Seq<Seq<char>>, dir: Seq<Seq<char>>)
    requires
        parts.len() > 0,
        dir.len() > 0,
        forall|i: int| 0 <= i < parts.len() ==> entry_name(#[trigger] parts[i]),
        forall|i: int| 0 <= i < dir.len() ==> entry_name(#[trigger] dir[i]),
    ensures
        within("/"@ + text::joined(parts, "/"@), "/"@ + text::joined(dir, "/"@)) <==> dir.len()
            <= parts.len() && parts.take(dir.len() as int) == dir,
        same("/"@ + text::joined(parts, "/"@), "/"@ + text::joined(dir, "/"@)) <==> parts == dir,
{
    lemma_components_are_the_names(parts);
    lemma_components_are_the_names(dir);
    let a = seq!["/"@] + parts;
    let b = seq!["/"@] + dir;
    assert(a.skip(1) =~= parts);
    assert(b.skip(1) =~= dir);
    if dir.len() <= parts.len() {
        let n = dir.len() as int;
        assert(a.take(n + 1) =~= seq!["/"@] + parts.take(n));
        assert(a.take(n + 1).skip(1) =~= parts.take(n));
    }
}

pub fn is_absolute(p: &str) -> (r: bool)
    ensures
        r == absolute(p@),
{
    p.unicode_len() > 0 && p.get_char(0) == '/'
}

pub fn join(dir: &str, entry: &str) -> (r: String)
    ensures
        r@ == below(dir@, entry@),
{
    if is_absolute(entry) {
        return entry.to_owned();
    }
    let n: usize = dir.unicode_len();
    if n == 0 || dir.get_char(n - 1) == '/' {
        dir.to_owned().concat(entry)
    } else {
        dir.to_owned().concat("/").concat(entry)
    }
}

pub fn trim_tail<'a>(p: &'a str) -> (r: &'a str)
    ensures
        r@ == tail_trimmed(p@),
{
    let v: Vec<char> = text::chars_of(p);
    let mut n: usize = v.len();
    assert(p@.take(n as int) =~= p@);
    while n >= 2 && (v[n - 1] == '/' || (v[n - 1] == '.' && v[n - 2] == '/'))
        invariant
            n <= v@.len(),
            v@ == p@,
            tail_trimmed(p@) == tail_trimmed(p@.take(n as int)),
        decreases n,
    {
        assert(p@.take(n as int).drop_last() =~= p@.take(n - 1));
        n -= 1;
    }
    assert(p@.subrange(0, n as int) =~= p@.take(n as int));
    p.substring_char(0, n)
}

pub fn file_name(p: &str) -> (r: Option<String>)
    ensures
        r is Some == name_of(p@) is Some,
        r matches Some(n) ==> name_of(p@) == Some(n@),
{
    let t: &str = trim_tail(p);
    let name: &str = match text::rsplit_once(t, "/") {
        Some((_, name)) => name,
        None => t,
    };
    if name.unicode_len() == 0 || text::same(name, ".") || text::same(name, "..") {
        None
    } else {
        Some(name.to_owned())
    }
}

pub fn parent(p: &str) -> (r: Option<String>)
    ensures
        r is Some == parent_of(p@) is Some,
        r matches Some(n) ==> parent_of(p@) == Some(n@),
{
    let t: &str = trim_tail(p);
    if t.unicode_len() == 0 || text::same(t, "/") {
        return None;
    }
    match text::rsplit_once(t, "/") {
        Some((dir, _)) => {
            let d: String = dir.to_owned().concat("/");
            Some(trim_tail(d.as_str()).to_owned())
        },
        None => {
            let e: String = String::new();
            assert(e@ =~= Seq::empty());
            Some(e)
        },
    }
}

fn parts_of(p: &str) -> (r: Vec<String>)
    ensures
        text::texts(r@) == named_parts(text::pieces(p@, '/')),
{
    let all: Vec<String> = text::split(p, '/');
    let mut out: Vec<String> = Vec::new();
    let mut i: usize = 0;
    assert(text::texts(out@) =~= named_parts(text::texts(all@).take(0)));
    while i < all.len()
        invariant
            i <= all@.len(),
            text::texts(out@) == named_parts(text::texts(all@).take(i as int)),
        decreases all@.len() - i,
    {
        let ghost t = text::texts(all@);
        assert(t.take(i + 1).drop_last() =~= t.take(i as int));
        assert(t.take(i + 1).last() == t[i as int]);
        if all[i].as_str().unicode_len() != 0 && !text::same(all[i].as_str(), ".") {
            text::push_text(&mut out, all[i].as_str());
        }
        i += 1;
    }
    assert(text::texts(all@).take(i as int) =~= text::texts(all@));
    out
}

fn is_dotted(p: &str) -> (r: bool)
    ensures
        r == dotted(p@),
{
    let all: Vec<String> = text::split(p, '/');
    assert(text::texts(all@)[0] == all@[0]@);
    text::same(all[0].as_str(), ".")
}

fn components_of(p: &str) -> (r: Vec<String>)
    ensures
        text::texts(r@) == components(p@),
{
    let mut out: Vec<String> = Vec::new();
    assert(text::texts(out@) =~= Seq::empty());
    if is_absolute(p) {
        text::push_text(&mut out, "/");
    }
    if is_dotted(p) {
        text::push_text(&mut out, ".");
    }
    let mut parts: Vec<String> = parts_of(p);
    let ghost head = text::texts(out@);
    let ghost tail = parts@;
    out.append(&mut parts);
    assert(text::texts(out@) =~= head + text::texts(tail));
    assert(text::texts(out@) =~= components(p@));
    out
}

pub fn same_path(a: &str, b: &str) -> (r: bool)
    ensures
        r == same(a@, b@),
{
    let x: Vec<String> = components_of(a);
    let y: Vec<String> = components_of(b);
    text::same_list(&x, &y)
}

pub fn starts_with(p: &str, dir: &str) -> (r: bool)
    ensures
        r == within(p@, dir@),
{
    let x: Vec<String> = components_of(p);
    let d: Vec<String> = components_of(dir);
    let ghost xt = text::texts(x@);
    let ghost dt = text::texts(d@);
    if d.len() > x.len() {
        return false;
    }
    let mut i: usize = 0;
    while i < d.len()
        invariant
            i <= d@.len() <= x@.len(),
            xt == text::texts(x@),
            dt == text::texts(d@),
            xt == components(p@),
            dt == components(dir@),
            forall|j: int| 0 <= j < i ==> xt[j] == dt[j],
        decreases d@.len() - i,
    {
        if !text::same(x[i].as_str(), d[i].as_str()) {
            assert(xt.take(dt.len() as int)[i as int] != dt[i as int]);
            return false;
        }
        i += 1;
    }
    assert(xt.take(dt.len() as int) =~= dt);
    true
}

} // verus!
