//! Text primitives on `&str` and `String`, each with its meaning as a function on sequences
//! of characters.
use vstd::prelude::*;

verus! {

/// `String::push` appends the given character to the end of the string.
pub assume_specification[ String::push ](s: &mut String, c: char)
    ensures
        final(s)@ == old(s)@.push(c),
;

/// The contents of a list of strings.
pub open spec fn texts(v: Seq<String>) -> Seq<Seq<char>> {
    Seq::new(v.len(), |i: int| v[i]@)
}

/// The characters with the Unicode property `White_Space`.
pub open spec fn is_space(c: char) -> bool {
    let n = c as u32;
    ||| 0x9 <= n <= 0xd
    ||| n == 0x20
    ||| n == 0x85
    ||| n == 0xa0
    ||| n == 0x1680
    ||| 0x2000 <= n <= 0x200a
    ||| n == 0x2028
    ||| n == 0x2029
    ||| n == 0x202f
    ||| n == 0x205f
    ||| n == 0x3000
}

pub open spec fn is_digit(c: char) -> bool {
    '0' <= c <= '9'
}

pub open spec fn is_alnum(c: char) -> bool {
    ||| '0' <= c <= '9'
    ||| 'a' <= c <= 'z'
    ||| 'A' <= c <= 'Z'
}

/// ASCII letters in upper case; every other character unchanged.
pub open spec fn upper(c: char) -> char {
    if 'a' <= c <= 'z' {
        ((c as u32) - 32) as char
    } else {
        c
    }
}

/// ASCII letters in lower case; every other character unchanged.
pub open spec fn lower(c: char) -> char {
    if 'A' <= c <= 'Z' {
        ((c as u32) + 32) as char
    } else {
        c
    }
}

/// A text with the letters `A` to `Z` in lower case.
pub open spec fn lowered(s: Seq<char>) -> Seq<char> {
    Seq::new(s.len(), |i: int| lower(s[i]))
}

pub fn char_is_space(c: char) -> (r: bool)
    ensures
        r == is_space(c),
{
    let n: u32 = c as u32;
    (0x9 <= n && n <= 0xd) || n == 0x20 || n == 0x85 || n == 0xa0 || n == 0x1680 || (0x2000 <= n
        && n <= 0x200a) || n == 0x2028 || n == 0x2029 || n == 0x202f || n == 0x205f || n == 0x3000
}

pub fn char_is_digit(c: char) -> (r: bool)
    ensures
        r == is_digit(c),
{
    '0' <= c && c <= '9'
}

pub fn char_is_alnum(c: char) -> (r: bool)
    ensures
        r == is_alnum(c),
{
    ('0' <= c && c <= '9') || ('a' <= c && c <= 'z') || ('A' <= c && c <= 'Z')
}

pub fn char_upper(c: char) -> (r: char)
    ensures
        r == upper(c),
{
    if 'a' <= c && c <= 'z' {
        let n: u8 = c as u8;
        (n - 32) as char
    } else {
        c
    }
}

pub fn char_lower(c: char) -> (r: char)
    ensures
        r == lower(c),
{
    if 'A' <= c && c <= 'Z' {
        let n: u8 = c as u8;
        (n + 32) as char
    } else {
        c
    }
}

/// The text without characters.
pub fn empty() -> (r: String)
    ensures
        r@ == Seq::<char>::empty(),
{
    let s: String = String::new();
    assert(s@ =~= Seq::empty());
    s
}

/// Whether two strings hold the same characters.
pub fn same(a: &str, b: &str) -> (r: bool)
    ensures
        r == (a@ == b@),
{
    a.to_owned() == b.to_owned()
}

/// The characters of a string.
pub fn chars_of(s: &str) -> (r: Vec<char>)
    ensures
        r@ == s@,
{
    let mut v: Vec<char> = Vec::new();
    for c in it: s.chars()
        invariant
            it.seq() == s@,
            v@ == s@.take(it.index() as int),
    {
        v.push(c);
    }
    v
}

/// The string of the characters `from..to` of a list.
pub fn string_of(v: &Vec<char>, from: usize, to: usize) -> (r: String)
    requires
        from <= to <= v@.len(),
    ensures
        r@ == v@.subrange(from as int, to as int),
{
    let mut s: String = String::new();
    let mut i: usize = from;
    while i < to
        invariant
            from <= i <= to <= v@.len(),
            s@ == v@.subrange(from as int, i as int),
        decreases to - i,
    {
        s.push(v[i]);
        i += 1;
        assert(v@.subrange(from as int, i as int) =~= v@.subrange(from as int, i - 1).push(
            v@[i - 1],
        ));
    }
    s
}

// ---------------------------------------------------------------------------
// Prefixes, suffixes and single characters
// ---------------------------------------------------------------------------

pub open spec fn has_prefix(s: Seq<char>, p: Seq<char>) -> bool {
    p.len() <= s.len() && s.take(p.len() as int) == p
}

pub open spec fn has_suffix(s: Seq<char>, p: Seq<char>) -> bool {
    p.len() <= s.len() && s.skip(s.len() - p.len()) == p
}

/// What follows the prefix, if the text starts with it.
pub open spec fn without_prefix(s: Seq<char>, p: Seq<char>) -> Option<Seq<char>> {
    if has_prefix(s, p) {
        Some(s.skip(p.len() as int))
    } else {
        None
    }
}

/// What precedes the suffix, if the text ends with it.
pub open spec fn without_suffix(s: Seq<char>, p: Seq<char>) -> Option<Seq<char>> {
    if has_suffix(s, p) {
        Some(s.take(s.len() - p.len()))
    } else {
        None
    }
}

pub fn starts_with(s: &str, p: &str) -> (r: bool)
    ensures
        r == has_prefix(s@, p@),
{
    let n: usize = s.unicode_len();
    let m: usize = p.unicode_len();
    if m > n {
        return false;
    }
    same(s.substring_char(0, m), p)
}

pub fn ends_with(s: &str, p: &str) -> (r: bool)
    ensures
        r == has_suffix(s@, p@),
{
    let n: usize = s.unicode_len();
    let m: usize = p.unicode_len();
    if m > n {
        return false;
    }
    assert(s@.subrange(n - m, n as int) =~= s@.skip(s@.len() - p@.len()));
    same(s.substring_char(n - m, n), p)
}

pub fn strip_prefix<'a>(s: &'a str, p: &str) -> (r: Option<&'a str>)
    ensures
        match r {
            Some(t) => without_prefix(s@, p@) == Some(t@),
            None => without_prefix(s@, p@) is None,
        },
{
    if starts_with(s, p) {
        let n: usize = s.unicode_len();
        let m: usize = p.unicode_len();
        assert(s@.subrange(m as int, n as int) =~= s@.skip(m as int));
        Some(s.substring_char(m, n))
    } else {
        None
    }
}

pub fn strip_suffix<'a>(s: &'a str, p: &str) -> (r: Option<&'a str>)
    ensures
        match r {
            Some(t) => without_suffix(s@, p@) == Some(t@),
            None => without_suffix(s@, p@) is None,
        },
{
    if ends_with(s, p) {
        let n: usize = s.unicode_len();
        let m: usize = p.unicode_len();
        assert(s@.subrange(0, n - m) =~= s@.take(n - m));
        Some(s.substring_char(0, n - m))
    } else {
        None
    }
}

/// The text with the prefix taken off as often as it occurs in a row.
pub open spec fn without_prefixes(s: Seq<char>, p: Seq<char>) -> Seq<char>
    decreases s.len(),
{
    if p.len() > 0 && has_prefix(s, p) {
        without_prefixes(s.skip(p.len() as int), p)
    } else {
        s
    }
}

/// The text with the suffix taken off as often as it occurs in a row.
pub open spec fn without_suffixes(s: Seq<char>, p: Seq<char>) -> Seq<char>
    decreases s.len(),
{
    if p.len() > 0 && has_suffix(s, p) {
        without_suffixes(s.take(s.len() - p.len()), p)
    } else {
        s
    }
}

pub fn trim_prefixes<'a>(s: &'a str, p: &str) -> (r: &'a str)
    ensures
        r@ == without_prefixes(s@, p@),
    decreases s@.len(),
{
    if p.is_empty() {
        return s;
    }
    match strip_prefix(s, p) {
        Some(t) => trim_prefixes(t, p),
        None => s,
    }
}

pub fn trim_suffixes<'a>(s: &'a str, p: &str) -> (r: &'a str)
    ensures
        r@ == without_suffixes(s@, p@),
    decreases s@.len(),
{
    if p.is_empty() {
        return s;
    }
    match strip_suffix(s, p) {
        Some(t) => trim_suffixes(t, p),
        None => s,
    }
}

/// The position of the first occurrence of a character; the length if there is none.
pub open spec fn find(s: Seq<char>, c: char) -> int
    decreases s.len(),
{
    if s.len() == 0 || s[0] == c {
        0
    } else {
        1 + find(s.skip(1), c)
    }
}

pub proof fn lemma_find(s: Seq<char>, c: char)
    ensures
        0 <= find(s, c) <= s.len(),
        forall|j: int| 0 <= j < find(s, c) ==> s[j] != c,
        find(s, c) < s.len() ==> s[find(s, c)] == c,
        s.contains(c) <==> find(s, c) < s.len(),
    decreases s.len(),
{
    if s.len() > 0 && s[0] != c {
        lemma_find(s.skip(1), c);
        assert forall|j: int| 0 <= j < find(s, c) implies s[j] != c by {
            if j > 0 {
                assert(s[j] == s.skip(1)[j - 1]);
            }
        }
    }
    if find(s, c) < s.len() {
        assert(s[find(s, c)] == c);
    }
}

/// `find` is the only position with these properties.
pub proof fn lemma_find_is(s: Seq<char>, c: char, i: int)
    requires
        0 <= i <= s.len(),
        forall|j: int| 0 <= j < i ==> s[j] != c,
        i < s.len() ==> s[i] == c,
    ensures
        find(s, c) == i,
{
    lemma_find(s, c);
    let k = find(s, c);
    if k < i {
        assert(s[k] != c);
    } else if i < k {
        assert(s[i] != c);
    }
}

pub fn find_char(s: &str, c: char) -> (r: usize)
    ensures
        r == find(s@, c),
        r <= s@.len(),
{
    let mut i: usize = 0;
    let n: usize = s.unicode_len();
    for x in it: s.chars()
        invariant
            it.seq() == s@,
            n == s@.len(),
            i == it.index(),
            forall|j: int| 0 <= j < i ==> s@[j] != c,
    {
        if x == c {
            proof {
                lemma_find_is(s@, c, i as int);
            }
            return i;
        }
        i += 1;
    }
    proof {
        lemma_find_is(s@, c, i as int);
    }
    i
}

pub fn contains_char(s: &str, c: char) -> (r: bool)
    ensures
        r == s@.contains(c),
{
    proof {
        lemma_find(s@, c);
    }
    find_char(s, c) < s.unicode_len()
}

/// The parts before and after the first occurrence of a character.
pub open spec fn split_at_first(s: Seq<char>, c: char) -> Option<(Seq<char>, Seq<char>)> {
    if find(s, c) < s.len() {
        Some((s.take(find(s, c)), s.skip(find(s, c) + 1)))
    } else {
        None
    }
}

pub fn split_once<'a>(s: &'a str, c: char) -> (r: Option<(&'a str, &'a str)>)
    ensures
        match r {
            Some((a, b)) => split_at_first(s@, c) == Some((a@, b@)),
            None => split_at_first(s@, c) is None,
        },
{
    let i: usize = find_char(s, c);
    let n: usize = s.unicode_len();
    if i < n {
        assert(s@.subrange(0, i as int) =~= s@.take(i as int));
        assert(s@.subrange(i + 1, n as int) =~= s@.skip(i + 1));
        Some((s.substring_char(0, i), s.substring_char(i + 1, n)))
    } else {
        None
    }
}

/// A text without the separator, then the separator, then anything, splits there.
pub proof fn lemma_split_at_first(a: Seq<char>, c: char, b: Seq<char>)
    requires
        !a.contains(c),
    ensures
        split_at_first(a.push(c) + b, c) == Some((a, b)),
{
    let s = a.push(c) + b;
    assert forall|j: int| 0 <= j < a.len() implies s[j] != c by {
        if s[j] == c {
            assert(a[j] == c);
            assert(a.contains(c));
        }
    }
    lemma_find_is(s, c, a.len() as int);
    assert(s.take(a.len() as int) =~= a);
    assert(s.skip(a.len() as int + 1) =~= b);
}

// ---------------------------------------------------------------------------
// Trimming
// ---------------------------------------------------------------------------

/// The characters that a trim takes off.
pub enum Trim {
    /// White space.
    Space,
    /// Double quotes.
    Quote,
    /// Everything but ASCII letters and digits.
    NonAlnum,
}

impl Trim {
    pub open spec fn takes(self, c: char) -> bool {
        match self {
            Trim::Space => is_space(c),
            Trim::Quote => c == '"',
            Trim::NonAlnum => !is_alnum(c),
        }
    }

    fn takes_char(&self, c: char) -> (r: bool)
        ensures
            r == self.takes(c),
    {
        match self {
            Trim::Space => char_is_space(c),
            Trim::Quote => c == '"',
            Trim::NonAlnum => !char_is_alnum(c),
        }
    }
}

pub open spec fn trimmed_left(s: Seq<char>, k: Trim) -> Seq<char>
    decreases s.len(),
{
    if s.len() > 0 && k.takes(s[0]) {
        trimmed_left(s.skip(1), k)
    } else {
        s
    }
}

pub open spec fn trimmed_right(s: Seq<char>, k: Trim) -> Seq<char>
    decreases s.len(),
{
    if s.len() > 0 && k.takes(s.last()) {
        trimmed_right(s.drop_last(), k)
    } else {
        s
    }
}

/// The text without the characters of the given kind at both ends.
pub open spec fn trimmed(s: Seq<char>, k: Trim) -> Seq<char> {
    trimmed_right(trimmed_left(s, k), k)
}

/// The text without white space at both ends.
pub open spec fn stripped(s: Seq<char>) -> Seq<char> {
    trimmed(s, Trim::Space)
}

pub fn trim_left<'a>(s: &'a str, k: &Trim) -> (r: &'a str)
    ensures
        r@ == trimmed_left(s@, *k),
{
    let n: usize = s.unicode_len();
    let mut i: usize = 0;
    assert(s@.skip(0) =~= s@);
    for c in it: s.chars()
        invariant
            it.seq() == s@,
            n == s@.len(),
            i == it.index(),
            trimmed_left(s@, *k) == trimmed_left(s@.skip(i as int), *k),
    {
        if !k.takes_char(c) {
            assert(s@.subrange(i as int, n as int) =~= s@.skip(i as int));
            return s.substring_char(i, n);
        }
        assert(s@.skip(i as int).skip(1) =~= s@.skip(i + 1));
        i += 1;
    }
    assert(s@.subrange(n as int, n as int) =~= s@.skip(n as int));
    s.substring_char(n, n)
}

pub fn trim_right<'a>(s: &'a str, k: &Trim) -> (r: &'a str)
    ensures
        r@ == trimmed_right(s@, *k),
{
    let v: Vec<char> = chars_of(s);
    let mut i: usize = v.len();
    assert(s@.take(i as int) =~= s@);
    while i > 0 && k.takes_char(v[i - 1])
        invariant
            i <= v@.len(),
            v@ == s@,
            trimmed_right(s@, *k) == trimmed_right(s@.take(i as int), *k),
        decreases i,
    {
        assert(s@.take(i as int).drop_last() =~= s@.take(i - 1));
        i -= 1;
    }
    assert(s@.subrange(0, i as int) =~= s@.take(i as int));
    s.substring_char(0, i)
}

pub fn trim_kind<'a>(s: &'a str, k: &Trim) -> (r: &'a str)
    ensures
        r@ == trimmed(s@, *k),
{
    trim_right(trim_left(s, k), k)
}

pub fn trim<'a>(s: &'a str) -> (r: &'a str)
    ensures
        r@ == stripped(s@),
{
    trim_kind(s, &Trim::Space)
}

/// A trimmed text is a piece of the text, and neither of its ends is a trimmed character.
pub proof fn lemma_trimmed(s: Seq<char>, k: Trim)
    ensures
        trimmed(s, k).len() <= s.len(),
        forall|c: char| #[trigger] trimmed(s, k).contains(c) ==> s.contains(c),
        trimmed(s, k).len() > 0 ==> !k.takes(trimmed(s, k)[0]) && !k.takes(trimmed(s, k).last()),
{
    lemma_trimmed_left(s, k);
    lemma_trimmed_right(trimmed_left(s, k), k);
}

pub proof fn lemma_trimmed_left(s: Seq<char>, k: Trim)
    ensures
        trimmed_left(s, k).len() <= s.len(),
        trimmed_left(s, k) == s.skip(s.len() - trimmed_left(s, k).len()),
        forall|c: char| #[trigger] trimmed_left(s, k).contains(c) ==> s.contains(c),
        trimmed_left(s, k).len() > 0 ==> !k.takes(trimmed_left(s, k)[0]),
    decreases s.len(),
{
    if s.len() > 0 && k.takes(s[0]) {
        lemma_trimmed_left(s.skip(1), k);
        let t = trimmed_left(s, k);
        assert(s.skip(1).skip(s.skip(1).len() - t.len()) =~= s.skip(s.len() - t.len()));
        assert forall|c: char| #[trigger] t.contains(c) implies s.contains(c) by {
            let j = choose|j: int| 0 <= j < s.skip(1).len() && s.skip(1)[j] == c;
            assert(s[j + 1] == c);
        }
    } else {
        assert(s.skip(0) =~= s);
    }
}

pub proof fn lemma_trimmed_right(s: Seq<char>, k: Trim)
    ensures
        trimmed_right(s, k).len() <= s.len(),
        trimmed_right(s, k) == s.take(trimmed_right(s, k).len() as int),
        forall|c: char| #[trigger] trimmed_right(s, k).contains(c) ==> s.contains(c),
        trimmed_right(s, k).len() > 0 ==> !k.takes(trimmed_right(s, k).last()),
        trimmed_right(s, k).len() > 0 ==> trimmed_right(s, k)[0] == s[0],
    decreases s.len(),
{
    if s.len() > 0 && k.takes(s.last()) {
        lemma_trimmed_right(s.drop_last(), k);
        let t = trimmed_right(s, k);
        assert(s.drop_last().take(t.len() as int) =~= s.take(t.len() as int));
        assert forall|c: char| #[trigger] t.contains(c) implies s.contains(c) by {
            let j = choose|j: int| 0 <= j < s.drop_last().len() && s.drop_last()[j] == c;
            assert(s[j] == c);
        }
    } else {
        assert(s.take(s.len() as int) =~= s);
    }
}

/// A text whose ends are not trimmed characters is left alone.
pub proof fn lemma_trimmed_same(s: Seq<char>, k: Trim)
    requires
        s.len() > 0 ==> !k.takes(s[0]) && !k.takes(s.last()),
    ensures
        trimmed(s, k) == s,
{
}

/// White space around a text is taken off, and nothing of the text itself.
pub proof fn lemma_stripped_is_the_middle(before: Seq<char>, s: Seq<char>, after: Seq<char>)
    requires
        forall|i: int| 0 <= i < before.len() ==> is_space(#[trigger] before[i]),
        forall|i: int| 0 <= i < after.len() ==> is_space(#[trigger] after[i]),
        s.len() > 0 ==> !is_space(s[0]) && !is_space(s.last()),
    ensures
        stripped(before + s + after) == s,
    decreases before.len() + after.len(),
{
    let all = before + s + after;
    let k = Trim::Space;
    if before.len() > 0 {
        let rest = before.skip(1);
        assert forall|i: int| 0 <= i < rest.len() implies is_space(#[trigger] rest[i]) by {
            assert(rest[i] == before[i + 1]);
        }
        lemma_stripped_is_the_middle(rest, s, after);
        assert(all[0] == before[0]);
        assert(all.skip(1) =~= rest + s + after);
    } else if s.len() == 0 {
        assert(all =~= after);
        if after.len() > 0 {
            let rest = after.skip(1);
            assert forall|i: int| 0 <= i < rest.len() implies is_space(#[trigger] rest[i]) by {
                assert(rest[i] == after[i + 1]);
            }
            lemma_stripped_is_the_middle(before, s, rest);
            assert(before + s + rest =~= rest);
            assert(all[0] == after[0]);
        } else {
            assert(all =~= s);
        }
    } else {
        assert(all =~= s + after);
        assert(all[0] == s[0]);
        assert(trimmed_left(all, k) == all);
        if after.len() > 0 {
            let rest = after.drop_last();
            assert forall|i: int| 0 <= i < rest.len() implies is_space(#[trigger] rest[i]) by {
                assert(rest[i] == after[i]);
            }
            lemma_stripped_is_the_middle(before, s, rest);
            let shorter = before + s + rest;
            assert(shorter[0] == s[0]);
            assert(trimmed_left(shorter, k) == shorter);
            assert(all.last() == after.last());
            assert(all.drop_last() =~= shorter);
        } else {
            assert(all =~= s);
        }
    }
}

// ---------------------------------------------------------------------------
// Lines, fields and lists
// ---------------------------------------------------------------------------

/// A line without its carriage return.
pub open spec fn without_cr(s: Seq<char>) -> Seq<char> {
    if s.len() > 0 && s.last() == '\r' {
        s.drop_last()
    } else {
        s
    }
}

/// The lines of a text. A line ends at `\n` or `\r\n`; a final line end opens no line.
pub open spec fn lines_of(s: Seq<char>) -> Seq<Seq<char>>
    decreases s.len(),
    via lines_of_decreases
{
    if s.len() == 0 {
        Seq::empty()
    } else if find(s, '\n') < s.len() {
        seq![without_cr(s.take(find(s, '\n')))] + lines_of(s.skip(find(s, '\n') + 1))
    } else {
        seq![s]
    }
}

#[via_fn]
proof fn lines_of_decreases(s: Seq<char>) {
    lemma_find(s, '\n');
}

/// The pieces of a text between the occurrences of a character; at least one.
pub open spec fn pieces(s: Seq<char>, c: char) -> Seq<Seq<char>>
    decreases s.len(),
    via pieces_decreases
{
    if find(s, c) < s.len() {
        seq![s.take(find(s, c))] + pieces(s.skip(find(s, c) + 1), c)
    } else {
        seq![s]
    }
}

#[via_fn]
proof fn pieces_decreases(s: Seq<char>, c: char) {
    lemma_find(s, c);
}

/// A line ends at a line feed, with or without a carriage return before it, and the text behind the
/// last one is a line if there is any.
pub proof fn lemma_lines(line: Seq<char>, rest: Seq<char>)
    requires
        !line.contains('\n'),
        line.len() > 0 ==> line.last() != '\r',
    ensures
        lines_of(line + "\n"@ + rest) == seq![line] + lines_of(rest),
        lines_of(line + "\r\n"@ + rest) == seq![line] + lines_of(rest),
        line.len() > 0 ==> lines_of(line) == seq![line],
        lines_of(Seq::empty()).len() == 0,
{
    reveal_strlit("\n");
    reveal_strlit("\r\n");
    let a = line + "\n"@ + rest;
    assert(a =~= line.push('\n') + rest);
    lemma_split_at_first(line, '\n', rest);
    assert(without_cr(line) == line);
    assert(find(a, '\n') < a.len());
    assert(a.take(find(a, '\n')) == line && a.skip(find(a, '\n') + 1) == rest);
    let c = line.push('\r');
    let b = line + "\r\n"@ + rest;
    assert(b =~= c.push('\n') + rest);
    assert(!c.contains('\n')) by {
        if c.contains('\n') {
            let i = choose|i: int| 0 <= i < c.len() && c[i] == '\n';
            assert(line[i] == '\n');
        }
    }
    lemma_split_at_first(c, '\n', rest);
    assert(c.drop_last() =~= line);
    assert(without_cr(c) == line);
    assert(find(b, '\n') < b.len());
    assert(b.take(find(b, '\n')) == c && b.skip(find(b, '\n') + 1) == rest);
    lemma_find(line, '\n');
}

/// Blanks, tabs and line ends are white space; letters, digits and punctuation are not.
pub proof fn lemma_white_space(c: char)
    ensures
        c == ' ' || c == '\t' || c == '\n' || c == '\r' ==> is_space(c),
        '!' <= c <= '~' ==> !is_space(c),
        '0' <= c <= '9' || 'a' <= c <= 'z' || 'A' <= c <= 'Z' <==> is_alnum(c),
{
}

/// The position of the first white space; the length if there is none.
pub open spec fn find_space(s: Seq<char>) -> int
    decreases s.len(),
{
    if s.len() == 0 || is_space(s[0]) {
        0
    } else {
        1 + find_space(s.skip(1))
    }
}

proof fn lemma_find_space(s: Seq<char>)
    ensures
        0 <= find_space(s) <= s.len(),
    decreases s.len(),
{
    if s.len() > 0 && !is_space(s[0]) {
        lemma_find_space(s.skip(1));
    }
}

/// The words of a text, separated by any amount of white space.
pub open spec fn words(s: Seq<char>) -> Seq<Seq<char>>
    decreases s.len(),
    via words_decreases
{
    if s.len() == 0 {
        Seq::empty()
    } else if is_space(s[0]) {
        words(s.skip(1))
    } else {
        seq![s.take(find_space(s))] + words(s.skip(find_space(s)))
    }
}

#[via_fn]
proof fn words_decreases(s: Seq<char>) {
    lemma_find_space(s);
    if s.len() > 0 && !is_space(s[0]) {
        lemma_find_space(s.skip(1));
        assert(find_space(s) >= 1);
    }
}

/// The texts in a row with a separator between each two.
pub open spec fn joined(parts: Seq<Seq<char>>, sep: Seq<char>) -> Seq<char>
    decreases parts.len(),
{
    if parts.len() == 0 {
        Seq::empty()
    } else if parts.len() == 1 {
        parts[0]
    } else {
        joined(parts.drop_last(), sep) + sep + parts.last()
    }
}

/// Append a copy of a text to a list.
pub fn push_text(v: &mut Vec<String>, s: &str)
    ensures
        texts(final(v)@) == texts(old(v)@).push(s@),
        final(v)@.len() == old(v)@.len() + 1,
{
    v.push(s.to_owned());
    assert(texts(v@) =~= texts(old(v)@).push(s@));
}

/// Append a text to a list.
pub fn push_string(v: &mut Vec<String>, s: String)
    ensures
        texts(final(v)@) == texts(old(v)@).push(s@),
        final(v)@.len() == old(v)@.len() + 1,
{
    v.push(s);
    assert(texts(v@) =~= texts(old(v)@).push(s@));
}

/// Whether two lists hold the same texts.
pub fn same_list(a: &Vec<String>, b: &Vec<String>) -> (r: bool)
    ensures
        r == (texts(a@) == texts(b@)),
{
    if a.len() != b.len() {
        assert(texts(a@).len() != texts(b@).len());
        return false;
    }
    let mut i: usize = 0;
    while i < a.len()
        invariant
            i <= a@.len(),
            a@.len() == b@.len(),
            forall|j: int| 0 <= j < i ==> a@[j]@ == b@[j]@,
        decreases a@.len() - i,
    {
        if !same(a[i].as_str(), b[i].as_str()) {
            assert(texts(a@)[i as int] != texts(b@)[i as int]);
            return false;
        }
        i += 1;
    }
    assert(texts(a@) =~= texts(b@));
    true
}

/// Whether a list holds a text.
pub fn list_contains(v: &Vec<String>, s: &str) -> (r: bool)
    ensures
        r == texts(v@).contains(s@),
{
    let mut i: usize = 0;
    while i < v.len()
        invariant
            i <= v@.len(),
            forall|j: int| 0 <= j < i ==> texts(v@)[j] != s@,
        decreases v@.len() - i,
    {
        if same(v[i].as_str(), s) {
            assert(texts(v@)[i as int] == s@);
            return true;
        }
        i += 1;
    }
    false
}

/// A copy of a list of texts.
pub fn copy_texts(v: &Vec<String>) -> (r: Vec<String>)
    ensures
        texts(r@) == texts(v@),
{
    let mut out: Vec<String> = Vec::new();
    let mut i: usize = 0;
    while i < v.len()
        invariant
            i <= v@.len(),
            texts(out@) == texts(v@).take(i as int),
        decreases v@.len() - i,
    {
        push_text(&mut out, v[i].as_str());
        i += 1;
        assert(texts(v@).take(i as int) =~= texts(v@).take(i - 1).push(texts(v@)[i - 1]));
    }
    assert(texts(v@).take(i as int) =~= texts(v@));
    out
}

pub fn lines(s: &str) -> (r: Vec<String>)
    ensures
        texts(r@) == lines_of(s@),
{
    let mut out: Vec<String> = Vec::new();
    let mut rest: &str = s;
    assert(texts(out@) =~= Seq::empty());
    assert(texts(out@) + lines_of(rest@) =~= lines_of(s@));
    while !rest.is_empty()
        invariant
            texts(out@) + lines_of(rest@) == lines_of(s@),
        decreases rest@.len(),
    {
        let ghost before = texts(out@);
        proof {
            lemma_find(rest@, '\n');
        }
        match split_once(rest, '\n') {
            Some((line, tail)) => {
                match strip_suffix(line, "\r") {
                    Some(l) => {
                        proof {
                            reveal_strlit("\r");
                            assert(line@.skip(line@.len() - 1)[0] == line@.last());
                            assert(l@ =~= line@.drop_last());
                        }
                        push_text(&mut out, l);
                    },
                    None => {
                        proof {
                            reveal_strlit("\r");
                            if line@.len() > 0 && line@.last() == '\r' {
                                assert(line@.skip(line@.len() - 1) =~= "\r"@);
                            }
                        }
                        push_text(&mut out, line);
                    },
                }
                assert(texts(out@) =~= before + seq![without_cr(line@)]);
                assert(before + lines_of(rest@) =~= texts(out@) + lines_of(tail@));
                rest = tail;
            },
            None => {
                push_text(&mut out, rest);
                assert(texts(out@) =~= before + lines_of(rest@));
                return out;
            },
        }
    }
    assert(texts(out@) + lines_of(rest@) =~= texts(out@));
    out
}

pub fn split(s: &str, c: char) -> (r: Vec<String>)
    ensures
        texts(r@) == pieces(s@, c),
        r@.len() > 0,
{
    let mut out: Vec<String> = Vec::new();
    let mut rest: &str = s;
    assert(texts(out@) + pieces(rest@, c) =~= pieces(s@, c));
    loop
        invariant
            texts(out@) + pieces(rest@, c) == pieces(s@, c),
        decreases rest@.len(),
    {
        let ghost before = texts(out@);
        proof {
            lemma_find(rest@, c);
        }
        match split_once(rest, c) {
            Some((piece, tail)) => {
                push_text(&mut out, piece);
                assert(texts(out@) =~= before + seq![piece@]);
                assert(before + pieces(rest@, c) =~= texts(out@) + pieces(tail@, c));
                rest = tail;
            },
            None => {
                push_text(&mut out, rest);
                assert(texts(out@) =~= before + pieces(rest@, c));
                return out;
            },
        }
    }
}

fn find_space_char(s: &str) -> (r: usize)
    ensures
        r == find_space(s@),
        r <= s@.len(),
{
    let mut i: usize = 0;
    let n: usize = s.unicode_len();
    assert(s@.skip(0) =~= s@);
    for x in it: s.chars()
        invariant
            it.seq() == s@,
            n == s@.len(),
            i == it.index(),
            find_space(s@) == i + find_space(s@.skip(i as int)),
    {
        if char_is_space(x) {
            return i;
        }
        assert(s@.skip(i as int).skip(1) =~= s@.skip(i + 1));
        i += 1;
    }
    i
}

pub fn split_whitespace(s: &str) -> (r: Vec<String>)
    ensures
        texts(r@) == words(s@),
{
    let mut out: Vec<String> = Vec::new();
    let mut rest: &str = s;
    assert(texts(out@) + words(rest@) =~= words(s@));
    while !rest.is_empty()
        invariant
            texts(out@) + words(rest@) == words(s@),
        decreases rest@.len(),
    {
        let ghost before = texts(out@);
        let i: usize = find_space_char(rest);
        let n: usize = rest.unicode_len();
        if i == 0 {
            proof {
                if !is_space(rest@[0]) {
                    lemma_find_space(rest@.skip(1));
                }
                assert(rest@.subrange(1, n as int) =~= rest@.skip(1));
            }
            rest = rest.substring_char(1, n);
        } else {
            assert(rest@.subrange(0, i as int) =~= rest@.take(i as int));
            assert(rest@.subrange(i as int, n as int) =~= rest@.skip(i as int));
            push_text(&mut out, rest.substring_char(0, i));
            assert(texts(out@) =~= before + seq![rest@.take(i as int)]);
            assert(before + words(rest@) =~= texts(out@) + words(rest@.skip(i as int)));
            rest = rest.substring_char(i, n);
        }
    }
    assert(texts(out@) + words(rest@) =~= texts(out@));
    out
}

pub fn join(parts: &Vec<String>, sep: &str) -> (r: String)
    ensures
        r@ == joined(texts(parts@), sep@),
{
    let mut out: String = String::new();
    let mut i: usize = 0;
    while i < parts.len()
        invariant
            i <= parts@.len(),
            out@ == joined(texts(parts@).take(i as int), sep@),
        decreases parts@.len() - i,
    {
        if i > 0 {
            out.append(sep);
        }
        out.append(parts[i].as_str());
        i += 1;
        proof {
            let t = texts(parts@).take(i as int);
            assert(t.drop_last() =~= texts(parts@).take(i - 1));
            if i == 1 {
                assert(out@ =~= t[0]);
            }
        }
    }
    assert(texts(parts@).take(i as int) =~= texts(parts@));
    out
}

// ---------------------------------------------------------------------------
// Substrings
// ---------------------------------------------------------------------------

/// Whether the pattern stands in the text at the given position.
pub open spec fn stands_at(s: Seq<char>, p: Seq<char>, i: int) -> bool {
    0 <= i && i + p.len() <= s.len() && s.subrange(i, i + p.len()) == p
}

pub open spec fn has_substring(s: Seq<char>, p: Seq<char>) -> bool {
    exists|i: int| stands_at(s, p, i)
}

fn stands_here(s: &Vec<char>, p: &Vec<char>, i: usize) -> (r: bool)
    requires
        i <= s@.len(),
    ensures
        r == stands_at(s@, p@, i as int),
{
    if p.len() > s.len() - i {
        return false;
    }
    let mut k: usize = 0;
    while k < p.len()
        invariant
            k <= p@.len(),
            i + p@.len() <= s.len(),
            forall|j: int| 0 <= j < k ==> s@[i + j] == p@[j],
        decreases p@.len() - k,
    {
        if s[i + k] != p[k] {
            assert(s@.subrange(i as int, i + p@.len())[k as int] != p@[k as int]);
            return false;
        }
        k += 1;
    }
    assert(s@.subrange(i as int, i + p@.len()) =~= p@);
    true
}

pub fn contains(s: &str, p: &str) -> (r: bool)
    ensures
        r == has_substring(s@, p@),
{
    let sv: Vec<char> = chars_of(s);
    let pv: Vec<char> = chars_of(p);
    let mut i: usize = 0;
    while i < sv.len()
        invariant
            i <= sv@.len(),
            sv@ == s@,
            pv@ == p@,
            forall|j: int| 0 <= j < i ==> !stands_at(s@, p@, j),
        decreases sv@.len() - i,
    {
        if stands_here(&sv, &pv, i) {
            return true;
        }
        i += 1;
    }
    stands_here(&sv, &pv, i)
}

/// The last position up to `i` where the pattern stands; -1 if there is none.
pub open spec fn rfind(s: Seq<char>, p: Seq<char>, i: int) -> int
    decreases i + 1,
{
    if i < 0 || stands_at(s, p, i) {
        i
    } else {
        rfind(s, p, i - 1)
    }
}

/// The text around the last occurrence of the pattern.
pub open spec fn split_at_last(s: Seq<char>, p: Seq<char>) -> Option<(Seq<char>, Seq<char>)> {
    let i = rfind(s, p, s.len() as int);
    if i < 0 {
        None
    } else {
        Some((s.take(i), s.skip(i + p.len())))
    }
}

/// A text is split at the last occurrence of a character: what follows it does not hold the
/// character, and a text without it is not split.
pub proof fn lemma_split_at_last(a: Seq<char>, c: char, b: Seq<char>)
    requires
        !b.contains(c),
    ensures
        split_at_last(a.push(c) + b, seq![c]) == Some((a, b)),
        split_at_last(b, seq![c]) is None,
{
    let s = a.push(c) + b;
    let p = seq![c];
    assert(s.subrange(a.len() as int, a.len() as int + 1) =~= p);
    assert forall|j: int| a.len() < j implies !stands_at(s, p, j) by {
        if stands_at(s, p, j) {
            assert(s.subrange(j, j + 1)[0] == s[j]);
            assert(b[j - a.len() - 1] == c);
        }
    }
    lemma_rfind_at(s, p, a.len() as int, s.len() as int);
    assert(s.take(a.len() as int) =~= a);
    assert(s.skip(a.len() as int + 1) =~= b);
    assert forall|j: int| !stands_at(b, p, j) by {
        if stands_at(b, p, j) {
            assert(b.subrange(j, j + 1)[0] == b[j]);
        }
    }
    lemma_rfind_at(b, p, -1, b.len() as int);
}

/// The last position of a pattern is the one that no other follows.
pub proof fn lemma_rfind_at(s: Seq<char>, p: Seq<char>, at: int, i: int)
    requires
        -1 <= at <= i,
        at >= 0 ==> stands_at(s, p, at),
        forall|j: int| at < j ==> !stands_at(s, p, j),
    ensures
        rfind(s, p, i) == at,
    decreases i - at,
{
    if at < i {
        lemma_rfind_at(s, p, at, i - 1);
    }
}

pub fn rsplit_once<'a>(s: &'a str, p: &str) -> (r: Option<(&'a str, &'a str)>)
    ensures
        r is Some == split_at_last(s@, p@) is Some,
        r matches Some((a, b)) ==> split_at_last(s@, p@) == Some((a@, b@)),
{
    let sv: Vec<char> = chars_of(s);
    let pv: Vec<char> = chars_of(p);
    let n: usize = sv.len();
    let mut i: usize = n;
    loop
        invariant
            i <= n,
            n == sv@.len(),
            sv@ == s@,
            pv@ == p@,
            rfind(s@, p@, n as int) == rfind(s@, p@, i as int),
        decreases i,
    {
        if stands_here(&sv, &pv, i) {
            let j: usize = i + pv.len();
            assert(s@.subrange(0, i as int) =~= s@.take(i as int));
            assert(s@.subrange(j as int, n as int) =~= s@.skip(j as int));
            return Some((s.substring_char(0, i), s.substring_char(j, n)));
        }
        if i == 0 {
            assert(rfind(s@, p@, 0) == rfind(s@, p@, -1));
            return None;
        }
        i -= 1;
    }
}

/// The text with every occurrence of the pattern, from the left, replaced.
pub open spec fn replaced(s: Seq<char>, p: Seq<char>, by: Seq<char>) -> Seq<char>
    decreases s.len(),
{
    if s.len() == 0 || p.len() == 0 {
        s
    } else if stands_at(s, p, 0) {
        by + replaced(s.skip(p.len() as int), p, by)
    } else {
        seq![s[0]] + replaced(s.skip(1), p, by)
    }
}

pub fn replace(s: &str, p: &str, by: &str) -> (r: String)
    requires
        p@.len() > 0,
    ensures
        r@ == replaced(s@, p@, by@),
{
    let sv: Vec<char> = chars_of(s);
    let pv: Vec<char> = chars_of(p);
    let mut out: String = String::new();
    let mut i: usize = 0;
    assert(s@.skip(0) =~= s@);
    assert(out@ + replaced(s@.skip(0), p@, by@) =~= replaced(s@, p@, by@));
    while i < sv.len()
        invariant
            i <= sv@.len(),
            sv@ == s@,
            pv@ == p@,
            p@.len() > 0,
            out@ + replaced(s@.skip(i as int), p@, by@) == replaced(s@, p@, by@),
        decreases sv@.len() - i,
    {
        let ghost rest = s@.skip(i as int);
        let ghost before = out@;
        proof {
            if stands_at(s@, p@, i as int) {
                assert(rest.subrange(0, p@.len() as int) =~= s@.subrange(i as int, i + p@.len()));
            }
            if stands_at(rest, p@, 0) {
                assert(rest.subrange(0, p@.len() as int) =~= s@.subrange(i as int, i + p@.len()));
            }
            assert(stands_at(s@, p@, i as int) == stands_at(rest, p@, 0));
        }
        if stands_here(&sv, &pv, i) {
            out.append(by);
            assert(rest.skip(p@.len() as int) =~= s@.skip(i + p@.len()));
            assert(before + (by@ + replaced(s@.skip(i + p@.len()), p@, by@)) =~= out@ + replaced(
                s@.skip(i + p@.len()),
                p@,
                by@,
            ));
            i += pv.len();
        } else {
            out.push(sv[i]);
            assert(rest.skip(1) =~= s@.skip(i + 1));
            assert(before + (seq![s@[i as int]] + replaced(s@.skip(i + 1), p@, by@)) =~= out@
                + replaced(s@.skip(i + 1), p@, by@));
            i += 1;
        }
    }
    assert(s@.skip(i as int) =~= Seq::empty());
    assert(out@ + replaced(s@.skip(i as int), p@, by@) =~= out@);
    out
}

/// Replacing a character by another changes every occurrence of it, each at its place, and nothing
/// else.
pub proof fn lemma_replaced_character(s: Seq<char>, c: char, d: char)
    ensures
        replaced(s, seq![c], seq![d]).len() == s.len(),
        forall|i: int|
            0 <= i < s.len() ==> #[trigger] replaced(s, seq![c], seq![d])[i] == (if s[i] == c {
                d
            } else {
                s[i]
            }),
    decreases s.len(),
{
    let p = seq![c];
    if s.len() > 0 {
        let rest = s.skip(1);
        lemma_replaced_character(rest, c, d);
        let r = replaced(rest, p, seq![d]);
        assert(s.subrange(0, 1)[0] == s[0]);
        assert(stands_at(s, p, 0) == (s[0] == c)) by {
            if s[0] == c {
                assert(s.subrange(0, 1) =~= p);
            }
        }
        let all = replaced(s, p, seq![d]);
        assert(all =~= seq![if s[0] == c {
            d
        } else {
            s[0]
        }] + r);
        assert forall|i: int| 0 <= i < s.len() implies #[trigger] all[i] == (if s[i] == c {
            d
        } else {
            s[i]
        }) by {
            if i > 0 {
                assert(all[i] == r[i - 1]);
                assert(rest[i - 1] == s[i]);
            }
        }
    }
}

/// The first position from `i` on where the pattern stands; the length if there is none.
pub open spec fn find_from(s: Seq<char>, p: Seq<char>, i: int) -> int
    decreases s.len() - i,
{
    if i >= s.len() || stands_at(s, p, i) {
        i
    } else {
        find_from(s, p, i + 1)
    }
}

/// The text with the first occurrence of the pattern replaced.
pub open spec fn replaced_once(s: Seq<char>, p: Seq<char>, by: Seq<char>) -> Seq<char> {
    let i = find_from(s, p, 0);
    if stands_at(s, p, i) {
        s.take(i) + by + s.skip(i + p.len())
    } else {
        s
    }
}

pub fn replace_once(s: &str, p: &str, by: &str) -> (r: String)
    ensures
        r@ == replaced_once(s@, p@, by@),
{
    let sv: Vec<char> = chars_of(s);
    let pv: Vec<char> = chars_of(p);
    let mut i: usize = 0;
    while i < sv.len() && !stands_here(&sv, &pv, i)
        invariant
            i <= sv@.len(),
            sv@ == s@,
            pv@ == p@,
            find_from(s@, p@, 0) == find_from(s@, p@, i as int),
        decreases sv@.len() - i,
    {
        i += 1;
    }
    if stands_here(&sv, &pv, i) {
        let j: usize = i + pv.len();
        let head: String = string_of(&sv, 0, i);
        let tail: String = string_of(&sv, j, sv.len());
        assert(s@.subrange(0, i as int) =~= s@.take(i as int));
        assert(s@.subrange(j as int, s@.len() as int) =~= s@.skip(j as int));
        head.concat(by).concat(tail.as_str())
    } else {
        s.to_owned()
    }
}

// ---------------------------------------------------------------------------
// Numbers
// ---------------------------------------------------------------------------

pub open spec fn digit(n: nat) -> char {
    (0x30 + n) as char
}

/// The number in decimal digits.
pub open spec fn dec(n: nat) -> Seq<char>
    decreases n,
{
    if n < 10 {
        seq![digit(n)]
    } else {
        dec(n / 10).push(digit(n % 10))
    }
}

/// The value of a row of decimal digits.
pub open spec fn dec_value(s: Seq<char>) -> nat
    decreases s.len(),
{
    if s.len() == 0 {
        0
    } else {
        (dec_value(s.drop_last()) * 10 + (s.last() as int - 0x30)) as nat
    }
}

pub open spec fn all_digits(s: Seq<char>) -> bool {
    forall|i: int| 0 <= i < s.len() ==> is_digit(#[trigger] s[i])
}

/// The digits after an optional plus sign.
pub open spec fn unsigned_digits(s: Seq<char>) -> Seq<char> {
    if s.len() > 0 && s[0] == '+' {
        s.skip(1)
    } else {
        s
    }
}

/// The number that a text writes in decimal, if it is at most `max`.
pub open spec fn parsed(s: Seq<char>, max: nat) -> Option<nat> {
    let d = unsigned_digits(s);
    if d.len() > 0 && all_digits(d) && dec_value(d) <= max {
        Some(dec_value(d))
    } else {
        None
    }
}

pub fn dec_of(n: u64) -> (r: String)
    ensures
        r@ == dec(n as nat),
    decreases n,
{
    let c: char = (48u8 + (n % 10) as u8) as char;
    if n < 10 {
        let mut s: String = String::new();
        s.push(c);
        assert(s@ =~= seq![c]);
        s
    } else {
        let mut s: String = dec_of(n / 10);
        s.push(c);
        s
    }
}

pub fn parse_number(s: &str, max: u64) -> (r: Option<u64>)
    ensures
        r is Some == parsed(s@, max as nat) is Some,
        r matches Some(n) ==> parsed(s@, max as nat) == Some(n as nat),
{
    let v: Vec<char> = chars_of(s);
    let mut i: usize = 0;
    if v.len() > 0 && v[0] == '+' {
        i = 1;
    }
    let ghost d = unsigned_digits(s@);
    let ghost o = i as int;
    if i == v.len() {
        return None;
    }
    let mut acc: u64 = 0;
    let mut over: bool = false;
    assert(d.take(0) =~= Seq::empty());
    while i < v.len()
        invariant
            v@ == s@,
            o <= i <= v@.len(),
            d.len() == v@.len() - o,
            forall|j: int| 0 <= j < d.len() ==> d[j] == v@[j + o],
            forall|j: int| 0 <= j < i - o ==> is_digit(#[trigger] d[j]),
            !over ==> acc == dec_value(d.take(i - o)) && acc <= max,
            over ==> dec_value(d.take(i - o)) > max,
            d == unsigned_digits(s@),
        decreases v@.len() - i,
    {
        let c: char = v[i];
        if !char_is_digit(c) {
            assert(!is_digit(d[i - o]));
            return None;
        }
        let x: u32 = c as u32 - 48;
        assert(d.take(i + 1 - o).drop_last() =~= d.take(i - o));
        assert(d.take(i + 1 - o).last() == c);
        if !over {
            let next: u128 = acc as u128 * 10 + x as u128;
            if next > max as u128 {
                over = true;
            } else {
                acc = next as u64;
            }
        }
        i += 1;
    }
    assert(d.take(i - o) =~= d);
    if over {
        None
    } else {
        Some(acc)
    }
}

/// A number is read only from digits, with or without a plus sign, and only up to the greatest that
/// is allowed.
pub proof fn lemma_only_numbers_are_read(s: Seq<char>, n: nat, max: nat)
    ensures
        parsed(Seq::empty(), max) is None,
        parsed(seq!['+'], max) is None,
        n <= max ==> parsed(seq!['+'] + dec(n), max) == Some(n),
        n > max ==> parsed(dec(n), max) is None,
        (exists|i: int| 1 <= i < s.len() && !('0' <= #[trigger] s[i] <= '9')) ==> parsed(
            s,
            max,
        ) is None,
        s.len() > 0 && s[0] != '+' && !('0' <= s[0] <= '9') ==> parsed(s, max) is None,
        parsed(s, max) matches Some(x) ==> x <= max,
{
    lemma_dec(n);
    let p = seq!['+'] + dec(n);
    assert(p.skip(1) =~= dec(n));
    assert(is_digit(dec(n)[0]));
    assert(seq!['+'].skip(1) =~= Seq::<char>::empty());
    let d = unsigned_digits(s);
    if exists|i: int| 1 <= i < s.len() && !('0' <= #[trigger] s[i] <= '9') {
        let i = choose|i: int| 1 <= i < s.len() && !('0' <= #[trigger] s[i] <= '9');
        if s[0] == '+' {
            assert(!is_digit(d[i - 1]));
        } else {
            assert(!is_digit(d[i]));
        }
    }
    if s.len() > 0 && s[0] != '+' && !('0' <= s[0] <= '9') {
        assert(!is_digit(d[0]));
    }
}

/// The port number that a text writes in decimal.
pub open spec fn parsed_u16(s: Seq<char>) -> Option<u16> {
    match parsed(s, 65535) {
        Some(n) => Some(n as u16),
        None => None,
    }
}

pub fn parse_u16(s: &str) -> (r: Option<u16>)
    ensures
        r == parsed_u16(s@),
{
    match parse_number(s, 65535) {
        Some(n) => Some(n as u16),
        None => None,
    }
}

/// The process number that a text writes: decimal digits behind an optional sign.
pub open spec fn parsed_i32(s: Seq<char>) -> Option<int> {
    if s.len() > 0 && s[0] == '-' {
        let d = s.skip(1);
        if d.len() > 0 && all_digits(d) && dec_value(d) <= 0x8000_0000 {
            Some(-dec_value(d))
        } else {
            None
        }
    } else {
        match parsed(s, 0x7fff_ffff) {
            Some(n) => Some(n as int),
            None => None,
        }
    }
}

pub fn parse_i32(s: &str) -> (r: Option<i32>)
    ensures
        r is Some == parsed_i32(s@) is Some,
        r matches Some(n) ==> parsed_i32(s@) == Some(n as int),
{
    match strip_prefix(s, "-") {
        Some(d) => {
            proof {
                reveal_strlit("-");
                assert(s@.take(1)[0] == s@[0]);
            }
            if d.is_empty() || !char_is_digit(d.get_char(0)) {
                assert(d@.len() > 0 ==> !is_digit(d@[0]));
                return None;
            }
            match parse_number(d, 0x8000_0000) {
                Some(n) => Some((-(n as i64)) as i32),
                None => None,
            }
        },
        None => {
            proof {
                reveal_strlit("-");
                if s@.len() > 0 && s@[0] == '-' {
                    assert(s@.take(1) =~= "-"@);
                }
            }
            match parse_number(s, 0x7fff_ffff) {
                Some(n) => Some(n as i32),
                None => None,
            }
        },
    }
}

pub proof fn lemma_dec(n: nat)
    ensures
        dec(n).len() > 0,
        all_digits(dec(n)),
        dec_value(dec(n)) == n,
    decreases n,
{
    if n < 10 {
        let s = dec(n);
        assert(s.drop_last() =~= Seq::empty());
        assert(dec_value(s.drop_last()) == 0);
    } else {
        lemma_dec(n / 10);
        let s = dec(n);
        assert(s.drop_last() =~= dec(n / 10));
        assert(dec_value(s) == dec_value(s.drop_last()) * 10 + (s.last() as int - 0x30));
        assert forall|i: int| 0 <= i < s.len() implies is_digit(#[trigger] s[i]) by {
            if i < s.len() - 1 {
                assert(s[i] == dec(n / 10)[i]);
            }
        }
    }
}

/// A number is written without zeros in front of it.
pub proof fn lemma_dec_is_shortest(n: nat)
    ensures
        n > 0 ==> dec(n)[0] != '0',
        n == 0 ==> dec(n) == seq!['0'],
    decreases n,
{
    if n >= 10 {
        lemma_dec_is_shortest(n / 10);
        lemma_dec(n / 10);
        assert(dec(n)[0] == dec(n / 10)[0]);
    }
}

/// What is written in decimal reads back as the same number.
pub proof fn lemma_parse_dec(n: nat, max: nat)
    requires
        n <= max,
    ensures
        parsed(dec(n), max) == Some(n),
{
    lemma_dec(n);
    assert(is_digit(dec(n)[0]));
}

// ---------------------------------------------------------------------------
// Order and padding
// ---------------------------------------------------------------------------

/// The dictionary order on texts, by the characters' code points.
pub open spec fn precedes(a: Seq<char>, b: Seq<char>) -> bool
    decreases a.len(),
{
    if b.len() == 0 {
        false
    } else if a.len() == 0 {
        true
    } else if a[0] == b[0] {
        precedes(a.skip(1), b.skip(1))
    } else {
        a[0] < b[0]
    }
}

pub proof fn lemma_precedes_total(a: Seq<char>, b: Seq<char>)
    ensures
        a == b || precedes(a, b) || precedes(b, a),
        !precedes(a, a),
        !(precedes(a, b) && precedes(b, a)),
        precedes(a, b) ==> a != b,
    decreases a.len(),
{
    if a.len() > 0 {
        lemma_precedes_total(a.skip(1), a.skip(1));
        if b.len() > 0 && a[0] == b[0] {
            lemma_precedes_total(a.skip(1), b.skip(1));
            if a.skip(1) == b.skip(1) {
                assert(a =~= seq![a[0]] + a.skip(1));
                assert(b =~= seq![b[0]] + b.skip(1));
            }
        }
    } else if b.len() == 0 {
        assert(a =~= b);
    }
}

pub proof fn lemma_precedes_transitive(a: Seq<char>, b: Seq<char>, c: Seq<char>)
    requires
        precedes(a, b),
        precedes(b, c),
    ensures
        precedes(a, c),
    decreases a.len(),
{
    if a.len() > 0 && a[0] == b[0] && b[0] == c[0] {
        lemma_precedes_transitive(a.skip(1), b.skip(1), c.skip(1));
    }
}

pub fn before(a: &str, b: &str) -> (r: bool)
    ensures
        r == precedes(a@, b@),
{
    let av: Vec<char> = chars_of(a);
    let bv: Vec<char> = chars_of(b);
    let mut i: usize = 0;
    assert(a@.skip(0) =~= a@);
    assert(b@.skip(0) =~= b@);
    loop
        invariant
            av@ == a@,
            bv@ == b@,
            i <= av@.len(),
            i <= bv@.len(),
            precedes(a@, b@) == precedes(a@.skip(i as int), b@.skip(i as int)),
        decreases av@.len() - i,
    {
        if i == bv.len() {
            return false;
        }
        if i == av.len() {
            return true;
        }
        if av[i] != bv[i] {
            return av[i] < bv[i];
        }
        assert(a@.skip(i as int).skip(1) =~= a@.skip(i + 1));
        assert(b@.skip(i as int).skip(1) =~= b@.skip(i + 1));
        i += 1;
    }
}

/// Texts go as in a dictionary: the first character in which they differ decides, and the beginning
/// of a text goes before the text.
pub proof fn lemma_precedes_is_dictionary_order(
    p: Seq<char>,
    x: char,
    y: char,
    a: Seq<char>,
    b: Seq<char>,
)
    ensures
        x < y ==> precedes(p.push(x) + a, p.push(y) + b),
        precedes(p, p.push(x) + a),
    decreases p.len(),
{
    let s = p.push(x) + a;
    let t = p.push(y) + b;
    if p.len() == 0 {
        assert(s[0] == x && t[0] == y);
    } else {
        let q = p.skip(1);
        lemma_precedes_is_dictionary_order(q, x, y, a, b);
        assert(s[0] == p[0] && t[0] == p[0]);
        assert(s.skip(1) =~= q.push(x) + a);
        assert(t.skip(1) =~= q.push(y) + b);
    }
}

/// A row of spaces.
pub open spec fn spaces(n: nat) -> Seq<char> {
    Seq::new(n, |i: int| ' ')
}

pub fn spaces_of(n: usize) -> (r: String)
    ensures
        r@ == spaces(n as nat),
{
    let mut s: String = String::new();
    let mut i: usize = 0;
    while i < n
        invariant
            i <= n,
            s@ == spaces(i as nat),
        decreases n - i,
    {
        s.push(' ');
        i += 1;
        assert(s@ =~= spaces(i as nat));
    }
    s
}

} // verus!
