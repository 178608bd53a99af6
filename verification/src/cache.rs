//! The size of the blob cache: its limit, and what leaves it.
use vstd::prelude::*;

use crate::path;
use crate::text;
use crate::util;

verus! {

pub const GIB: u64 = 1073741824;

/// The limit of the cache in GiB unless another one was set.
pub const DEFAULT_GIB: u64 = 20;

/// The file that keeps the limit.
pub fn limit_path(home: &str) -> (r: String)
    ensures
        r@ == path::below(util::home_of(home@), "mirror-limit"@),
{
    path::join(util::wtx_home(home).as_str(), "mirror-limit")
}

/// The limit in GiB that a file keeps.
pub open spec fn gib_in(file: Option<Seq<char>>) -> nat {
    match file {
        Some(s) => match text::parsed(text::stripped(s), u64::MAX as nat) {
            Some(n) => n,
            None => DEFAULT_GIB as nat,
        },
        None => DEFAULT_GIB as nat,
    }
}

/// The limit in GiB, from the text of its file.
pub fn limit_gib(file: Option<&str>) -> (r: u64)
    ensures
        r == gib_in(util::opt_view(file)),
{
    match file {
        Some(s) => match text::parse_number(text::trim(s), u64::MAX) {
            Some(n) => n,
            None => DEFAULT_GIB,
        },
        None => DEFAULT_GIB,
    }
}

/// A limit in bytes, as far as it can be counted.
pub fn limit_bytes(gib: u64) -> (r: u64)
    ensures
        r == (if gib * GIB <= u64::MAX {
            gib * GIB
        } else {
            u64::MAX as int
        }),
{
    match gib.checked_mul(GIB) {
        Some(n) => n,
        None => u64::MAX,
    }
}

/// A limit that was set is the limit that is read again.
pub proof fn lemma_limit_is_kept(gib: u64)
    ensures
        gib_in(Some(text::dec(gib as nat) + "\n"@)) == gib,
{
    let d = text::dec(gib as nat);
    reveal_strlit("\n");
    text::lemma_dec(gib as nat);
    text::lemma_parse_dec(gib as nat, u64::MAX as nat);
    assert(text::is_digit(d[0]) && text::is_digit(d.last()));
    let s = d + "\n"@;
    assert(s.drop_last() =~= d);
    assert(text::trimmed_right(d, text::Trim::Space) == d);
    assert(text::trimmed_right(s, text::Trim::Space) == d);
    text::lemma_trimmed_same(d, text::Trim::Space);
    assert(s[0] == d[0]);
    assert(text::trimmed_left(s, text::Trim::Space) == s);
}

/// The text of the file that keeps a limit.
pub fn limit_text(gib: u64) -> (r: String)
    ensures
        r@ == text::dec(gib as nat) + "\n"@,
        gib_in(Some(r@)) == gib,
{
    proof {
        lemma_limit_is_kept(gib);
    }
    let d: String = text::dec_of(gib);
    d.concat("\n")
}

// ---------------------------------------------------------------------------
// Eviction
// ---------------------------------------------------------------------------

/// A blob in the cache: its file, its size in bytes, and when it was written.
pub struct Blob {
    pub file: String,
    pub size: u64,
    pub written: u64,
}

pub struct BlobView {
    pub file: Seq<char>,
    pub size: u64,
    pub written: u64,
}

impl View for Blob {
    type V = BlobView;

    open spec fn view(&self) -> BlobView {
        BlobView { file: self.file@, size: self.size, written: self.written }
    }
}

pub open spec fn blobs(v: Seq<Blob>) -> Seq<BlobView> {
    Seq::new(v.len(), |i: int| v[i]@)
}

/// The blobs with one more, behind those that are no younger.
pub open spec fn with_blob(v: Seq<BlobView>, x: BlobView) -> Seq<BlobView>
    decreases v.len(),
{
    if v.len() == 0 {
        seq![x]
    } else if x.written < v[0].written {
        seq![x] + v
    } else {
        seq![v[0]] + with_blob(v.skip(1), x)
    }
}

/// The blobs from the oldest to the youngest.
pub open spec fn by_age(v: Seq<BlobView>) -> Seq<BlobView>
    decreases v.len(),
{
    if v.len() == 0 {
        v
    } else {
        with_blob(by_age(v.drop_last()), v.last())
    }
}

/// The size of blobs together.
pub open spec fn total(v: Seq<BlobView>) -> nat
    decreases v.len(),
{
    if v.len() == 0 {
        0
    } else {
        v[0].size as nat + total(v.skip(1))
    }
}

/// How many blobs leave, one after the other, until the rest fits the limit.
pub open spec fn surplus(v: Seq<BlobView>, limit: nat) -> nat
    decreases v.len(),
{
    if v.len() == 0 || total(v) <= limit {
        0
    } else {
        1 + surplus(v.skip(1), limit)
    }
}

pub open spec fn files_of(v: Seq<BlobView>) -> Seq<Seq<char>> {
    Seq::new(v.len(), |i: int| v[i].file)
}

/// The files that leave the cache: the oldest ones, until the rest fits the limit.
pub open spec fn evicted(v: Seq<BlobView>, limit: nat) -> Seq<Seq<char>> {
    files_of(by_age(v).take(surplus(by_age(v), limit) as int))
}

fn insert_blob(v: &mut Vec<Blob>, x: Blob)
    ensures
        blobs(final(v)@) == with_blob(blobs(old(v)@), x@),
{
    let ghost t = blobs(v@);
    let ghost xv = x@;
    let mut i: usize = 0;
    assert(t.skip(0) =~= t);
    assert(t.take(0) + with_blob(t.skip(0), xv) =~= with_blob(t, xv));
    while i < v.len()
        invariant
            i <= v@.len(),
            v@ == old(v)@,
            xv == x@,
            t == blobs(v@),
            t.take(i as int) + with_blob(t.skip(i as int), xv) == with_blob(t, xv),
        decreases v@.len() - i,
    {
        assert(t.skip(i as int)[0] == t[i as int]);
        assert(t.skip(i as int).skip(1) =~= t.skip(i + 1));
        if x.written < v[i].written {
            v.insert(i, x);
            assert(blobs(v@) =~= t.take(i as int) + (seq![xv] + t.skip(i as int)));
            return;
        }
        assert(t.take(i as int) + (seq![t[i as int]] + with_blob(t.skip(i + 1), xv)) =~= t.take(
            i + 1,
        ) + with_blob(t.skip(i + 1), xv));
        i += 1;
    }
    v.push(x);
    assert(blobs(v@) =~= t.take(i as int) + seq![xv]);
}

proof fn lemma_total_skips(v: Seq<BlobView>, k: int)
    requires
        0 <= k <= v.len(),
    ensures
        total(v.skip(k)) <= total(v),
    decreases k,
{
    if k == 0 {
        assert(v.skip(0) =~= v);
    } else {
        lemma_total_skips(v.skip(1), k - 1);
        assert(v.skip(1).skip(k - 1) =~= v.skip(k));
    }
}

proof fn lemma_surplus_is(v: Seq<BlobView>, limit: nat, k: int)
    requires
        0 <= k <= v.len(),
        total(v.skip(k)) <= limit,
        k > 0 ==> total(v.skip(k - 1)) > limit,
    ensures
        surplus(v, limit) == k,
    decreases k,
{
    if k == 0 {
        assert(v.skip(0) =~= v);
    } else {
        lemma_total_skips(v, k - 1);
        assert(v.skip(1).skip(k - 1) =~= v.skip(k));
        if k > 1 {
            assert(v.skip(1).skip(k - 2) =~= v.skip(k - 1));
        }
        lemma_surplus_is(v.skip(1), limit, k - 1);
    }
}

/// Decide which files leave the cache.
pub fn evictions(cached: &Vec<Blob>, limit: u64) -> (r: Vec<String>)
    ensures
        text::texts(r@) == evicted(blobs(cached@), limit as nat),
{
    let ghost all = blobs(cached@);
    let mut sorted: Vec<Blob> = Vec::new();
    let mut i: usize = 0;
    assert(all.take(0) =~= Seq::empty());
    assert(blobs(sorted@) =~= Seq::empty());
    while i < cached.len()
        invariant
            i <= cached@.len(),
            all == blobs(cached@),
            blobs(sorted@) == by_age(all.take(i as int)),
        decreases cached@.len() - i,
    {
        assert(all.take(i + 1).drop_last() =~= all.take(i as int));
        assert(all.take(i + 1).last() == all[i as int]);
        let x: Blob = Blob {
            file: cached[i].file.clone(),
            size: cached[i].size,
            written: cached[i].written,
        };
        insert_blob(&mut sorted, x);
        i += 1;
    }
    assert(all.take(i as int) =~= all);
    let ghost v = by_age(all);
    let mut k: usize = sorted.len();
    let mut used: u64 = 0;
    assert(v.skip(k as int) =~= Seq::empty());
    while k > 0 && sorted[k - 1].size <= limit - used
        invariant
            k <= sorted@.len(),
            v == blobs(sorted@),
            used <= limit,
            used == total(v.skip(k as int)),
        decreases k,
    {
        assert(v.skip(k - 1)[0] == v[k - 1]);
        assert(v.skip(k - 1).skip(1) =~= v.skip(k as int));
        used += sorted[k - 1].size;
        k -= 1;
    }
    proof {
        if k > 0 {
            assert(v.skip(k - 1)[0] == v[k - 1]);
            assert(v.skip(k - 1).skip(1) =~= v.skip(k as int));
        }
        lemma_surplus_is(v, limit as nat, k as int);
    }
    let mut out: Vec<String> = Vec::new();
    let ghost files = files_of(v.take(k as int));
    let mut j: usize = 0;
    assert(text::texts(out@) =~= files.take(0));
    while j < k
        invariant
            j <= k <= sorted@.len(),
            v == blobs(sorted@),
            files == files_of(v.take(k as int)),
            text::texts(out@) == files.take(j as int),
        decreases k - j,
    {
        text::push_text(&mut out, sorted[j].file.as_str());
        assert(files[j as int] == v[j as int].file);
        assert(files.take(j + 1) =~= files.take(j as int).push(files[j as int]));
        j += 1;
    }
    assert(files.take(j as int) =~= files);
    out
}

proof fn lemma_with_blob(v: Seq<BlobView>, x: BlobView)
    requires
        oldest_first(v),
    ensures
        oldest_first(with_blob(v, x)),
        with_blob(v, x).to_multiset() == v.to_multiset().insert(x),
    decreases v.len(),
{
    broadcast use vstd::seq_lib::group_to_multiset_ensures;

    let r = with_blob(v, x);
    if v.len() == 0 {
        assert(r =~= v.push(x));
    } else if x.written < v[0].written {
        assert(r =~= v.insert(0, x));
        assert forall|i: int, j: int|
            #![trigger r[i], r[j]]
            0 <= i <= j < r.len() implies r[i].written <= r[j].written by {
            if i > 0 {
                assert(r[i] == v[i - 1]);
            }
            if j > 0 {
                assert(r[j] == v[j - 1]);
                assert(v[0].written <= v[j - 1].written);
            }
        }
    } else {
        let rest = v.skip(1);
        assert forall|i: int, j: int|
            #![trigger rest[i], rest[j]]
            0 <= i <= j < rest.len() implies rest[i].written <= rest[j].written by {
            assert(rest[i] == v[i + 1] && rest[j] == v[j + 1]);
        }
        lemma_with_blob(rest, x);
        let q = with_blob(rest, x);
        assert(r =~= q.insert(0, v[0]));
        assert(v =~= rest.insert(0, v[0]));
        assert(r.to_multiset() =~= v.to_multiset().insert(x));
        assert forall|i: int, j: int|
            #![trigger r[i], r[j]]
            0 <= i <= j < r.len() implies r[i].written <= r[j].written by {
            if j > 0 {
                assert(r[j] == q[j - 1]);
                if i > 0 {
                    assert(r[i] == q[i - 1]);
                } else {
                    assert(q.to_multiset().contains(q[j - 1]));
                    if q[j - 1] != x {
                        assert(rest.to_multiset().contains(q[j - 1]));
                        let m = choose|m: int| 0 <= m < rest.len() && rest[m] == q[j - 1];
                        assert(v[m + 1] == q[j - 1]);
                    }
                }
            }
        }
    }
}

/// Whether no blob is older than one before it.
pub open spec fn oldest_first(v: Seq<BlobView>) -> bool {
    forall|i: int, j: int|
        #![trigger v[i], v[j]]
        0 <= i <= j < v.len() ==> v[i].written <= v[j].written
}

proof fn lemma_by_age(v: Seq<BlobView>)
    ensures
        oldest_first(by_age(v)),
        by_age(v).to_multiset() == v.to_multiset(),
    decreases v.len(),
{
    if v.len() > 0 {
        broadcast use vstd::seq_lib::group_to_multiset_ensures;

        lemma_by_age(v.drop_last());
        lemma_with_blob(by_age(v.drop_last()), v.last());
        assert(v =~= v.drop_last().push(v.last()));
    }
}

proof fn lemma_surplus(v: Seq<BlobView>, limit: nat)
    ensures
        surplus(v, limit) <= v.len(),
        total(v.skip(surplus(v, limit) as int)) <= limit,
        surplus(v, limit) > 0 ==> total(v.skip(surplus(v, limit) - 1)) > limit,
    decreases v.len(),
{
    assert(v.skip(0) =~= v);
    if v.len() > 0 && total(v) > limit {
        let rest = v.skip(1);
        lemma_surplus(rest, limit);
        let n = surplus(rest, limit) as int;
        assert(rest.skip(n) =~= v.skip(n + 1));
        if n > 0 {
            assert(rest.skip(n - 1) =~= v.skip(n));
        }
    }
}

/// Eviction parts the cached blobs into the oldest ones, which leave, and the rest, which stays and
/// fits the limit. No blob that stays is older than one that leaves, and nothing leaves without
/// need: with the last one that leaves, the rest would not fit.
pub proof fn lemma_evictions(v: Seq<BlobView>, limit: nat)
    ensures
        ({
            let n = surplus(by_age(v), limit) as int;
            let leaving = by_age(v).take(n);
            let staying = by_age(v).skip(n);
            &&& evicted(v, limit) == files_of(leaving)
            &&& v.to_multiset() == leaving.to_multiset().add(staying.to_multiset())
            &&& total(staying) <= limit
            &&& n > 0 ==> total(seq![leaving.last()] + staying) > limit
            &&& forall|i: int, j: int|
                #![trigger leaving[i], staying[j]]
                0 <= i < leaving.len() && 0 <= j < staying.len() ==> leaving[i].written
                    <= staying[j].written
        }),
{
    let s = by_age(v);
    let n = surplus(s, limit) as int;
    lemma_by_age(v);
    lemma_surplus(s, limit);
    let leaving = s.take(n);
    let staying = s.skip(n);
    assert(leaving + staying =~= s);
    vstd::seq_lib::lemma_multiset_commutative(leaving, staying);
    if n > 0 {
        assert(seq![leaving.last()] + staying =~= s.skip(n - 1));
    }
    assert forall|i: int, j: int|
        #![trigger leaving[i], staying[j]]
        0 <= i < leaving.len() && 0 <= j < staying.len() implies leaving[i].written
        <= staying[j].written by {
        assert(leaving[i] == s[i] && staying[j] == s[n + j]);
    }
}

/// The line of `wtx mirror gc`.
pub fn gc_line(removed: usize, gib: u64) -> (r: String)
    ensures
        r@ == "mirror: removed "@ + text::dec(removed as nat) + " blobs (limit "@ + text::dec(
            gib as nat,
        ) + " GiB)"@,
{
    let n: String = text::dec_of(removed as u64);
    let g: String = text::dec_of(gib);
    "mirror: removed ".to_owned().concat(n.as_str()).concat(" blobs (limit ").concat(
        g.as_str(),
    ).concat(" GiB)")
}

} // verus!
