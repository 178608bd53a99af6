//! Quoting, padding and the reading of command output.
use vstd::prelude::*;

use crate::path;
use crate::text;

verus! {

/// The directory of wtx below the home directory.
pub open spec fn home_of(home: Seq<char>) -> Seq<char> {
    path::below(home, ".wtx"@)
}

/// Lima's directory of an instance.
pub open spec fn lima_dir_of(home: Seq<char>, name: Seq<char>) -> Seq<char> {
    path::below(path::below(home, ".lima"@), name)
}

pub fn wtx_home(home: &str) -> (r: String)
    ensures
        r@ == home_of(home@),
{
    path::join(home, ".wtx")
}

pub fn lima_dir(home: &str, name: &str) -> (r: String)
    ensures
        r@ == lima_dir_of(home@, name@),
{
    path::join(path::join(home, ".lima").as_str(), name)
}

// ---------------------------------------------------------------------------
// Shell quoting
// ---------------------------------------------------------------------------

/// A text in single quotes, with each single quote inside it written as `'\''`.
pub open spec fn quoted(s: Seq<char>) -> Seq<char> {
    "'"@ + text::replaced(s, "'"@, "'\\''"@) + "'"@
}

/// Quote a text so that a POSIX shell reads it as one word.
pub fn shq(s: &str) -> (r: String)
    ensures
        r@ == quoted(s@),
{
    proof {
        reveal_strlit("'");
    }
    let inner: String = text::replace(s, "'", "'\\''");
    "'".to_owned().concat(inner.as_str()).concat("'")
}

pub open spec fn word_or_empty(w: Option<Seq<char>>) -> Seq<char> {
    match w {
        Some(x) => x,
        None => Seq::empty(),
    }
}

/// How a POSIX shell splits a text into words, as far as spaces, single quotes and backslashes
/// go: `q` says whether the position is inside single quotes, and `w` is the word that was begun.
/// `None` means that a quote or a backslash is left open.
pub open spec fn shell_words_from(s: Seq<char>, q: bool, w: Option<Seq<char>>) -> Option<
    Seq<Seq<char>>,
>
    decreases s.len(),
{
    if s.len() == 0 {
        if q {
            None
        } else {
            match w {
                Some(x) => Some(seq![x]),
                None => Some(Seq::empty()),
            }
        }
    } else if q {
        if s[0] == '\'' {
            shell_words_from(s.skip(1), false, w)
        } else {
            shell_words_from(s.skip(1), true, Some(word_or_empty(w).push(s[0])))
        }
    } else if s[0] == '\'' {
        shell_words_from(s.skip(1), true, Some(word_or_empty(w)))
    } else if s[0] == '\\' {
        if s.len() < 2 {
            None
        } else {
            shell_words_from(s.skip(2), false, Some(word_or_empty(w).push(s[1])))
        }
    } else if s[0] == ' ' {
        match w {
            Some(x) => match shell_words_from(s.skip(1), false, None) {
                Some(rest) => Some(seq![x] + rest),
                None => None,
            },
            None => shell_words_from(s.skip(1), false, None),
        }
    } else {
        shell_words_from(s.skip(1), false, Some(word_or_empty(w).push(s[0])))
    }
}

/// The words of a shell command line.
pub open spec fn shell_words(s: Seq<char>) -> Option<Seq<Seq<char>>> {
    shell_words_from(s, false, None)
}

proof fn lemma_inside_quotes(s: Seq<char>, rest: Seq<char>, w: Seq<char>)
    ensures
        shell_words_from(
            text::replaced(s, "'"@, "'\\''"@) + ("'"@ + rest),
            true,
            Some(w),
        ) == shell_words_from(rest, false, Some(w + s)),
    decreases s.len(),
{
    reveal_strlit("'");
    reveal_strlit("'\\''");
    let body = text::replaced(s, "'"@, "'\\''"@);
    let all = body + ("'"@ + rest);
    if s.len() == 0 {
        assert(all =~= "'"@ + rest);
        assert(all.skip(1) =~= rest);
        assert(w + s =~= w);
    } else {
        let tail = text::replaced(s.skip(1), "'"@, "'\\''"@) + ("'"@ + rest);
        if s[0] == '\'' {
            assert(s.subrange(0, 1) =~= "'"@);
            assert(text::stands_at(s, "'"@, 0));
            assert(all =~= "'\\''"@ + tail);
            assert(all.skip(1).skip(2) =~= seq!['\''] + tail);
            assert(all.skip(1).skip(2).skip(1) =~= tail);
            assert(all.skip(1)[0] == '\\' && all.skip(1)[1] == '\'');
            lemma_inside_quotes(s.skip(1), rest, w.push('\''));
            reveal_with_fuel(shell_words_from, 4);
            assert(w.push('\'') + s.skip(1) =~= w + s);
        } else {
            assert(!text::stands_at(s, "'"@, 0)) by {
                if text::stands_at(s, "'"@, 0) {
                    assert(s.subrange(0, 1)[0] == "'"@[0]);
                }
            }
            assert(all =~= seq![s[0]] + tail);
            assert(all.skip(1) =~= tail);
            lemma_inside_quotes(s.skip(1), rest, w.push(s[0]));
            assert(w.push(s[0]) + s.skip(1) =~= w + s);
        }
    }
}

/// A quoted text is read as one word, whatever follows it.
pub proof fn lemma_quoted_then(s: Seq<char>, rest: Seq<char>)
    ensures
        shell_words_from(quoted(s) + rest, false, None) == shell_words_from(rest, false, Some(s)),
{
    reveal_strlit("'");
    let body = text::replaced(s, "'"@, "'\\''"@);
    let all = quoted(s) + rest;
    assert(all =~= "'"@ + (body + ("'"@ + rest)));
    assert(all[0] == '\'');
    assert(all.skip(1) =~= body + ("'"@ + rest));
    lemma_inside_quotes(s, rest, Seq::empty());
    assert(Seq::<char>::empty() + s =~= s);
}

/// A shell reads a quoted text as exactly that text.
pub proof fn lemma_shell_reads_quoted(s: Seq<char>)
    ensures
        shell_words(quoted(s)) == Some(seq![s]),
{
    lemma_quoted_then(s, Seq::empty());
    assert(quoted(s) + Seq::<char>::empty() =~= quoted(s));
}

/// The quoted texts of a list.
pub open spec fn all_quoted(v: Seq<Seq<char>>) -> Seq<Seq<char>> {
    Seq::new(v.len(), |i: int| quoted(v[i]))
}

/// A command line of words, each in quotes.
pub open spec fn command_line(words: Seq<Seq<char>>) -> Seq<char> {
    text::joined(all_quoted(words), " "@)
}

pub fn quote_words(words: &Vec<String>) -> (r: String)
    ensures
        r@ == command_line(text::texts(words@)),
{
    let mut out: Vec<String> = Vec::new();
    let mut i: usize = 0;
    assert(text::texts(out@) =~= all_quoted(text::texts(words@)).take(0));
    while i < words.len()
        invariant
            i <= words@.len(),
            text::texts(out@) == all_quoted(text::texts(words@)).take(i as int),
        decreases words@.len() - i,
    {
        let ghost q = all_quoted(text::texts(words@));
        text::push_string(&mut out, shq(words[i].as_str()));
        assert(q.take(i as int).push(q[i as int]) =~= q.take(i + 1));
        i += 1;
    }
    assert(all_quoted(text::texts(words@)).take(i as int) =~= all_quoted(text::texts(words@)));
    text::join(&out, " ")
}

pub proof fn lemma_joined_front(parts: Seq<Seq<char>>, sep: Seq<char>)
    requires
        parts.len() >= 2,
    ensures
        text::joined(parts, sep) == parts[0] + (sep + text::joined(parts.skip(1), sep)),
    decreases parts.len(),
{
    let front = parts.drop_last();
    if parts.len() == 2 {
        assert(front.len() == 1);
        assert(text::joined(front, sep) == front[0]);
        assert(parts.skip(1).len() == 1);
        assert(text::joined(parts, sep) =~= parts[0] + (sep + parts[1]));
    } else {
        lemma_joined_front(front, sep);
        assert(front.skip(1) =~= parts.skip(1).drop_last());
        assert(parts.skip(1).last() == parts.last());
        assert(text::joined(parts, sep) =~= parts[0] + (sep + text::joined(parts.skip(1), sep)));
    }
}

/// Texts that do not hold the separator are read back from a row of them.
pub proof fn lemma_pieces_of_joined(parts: Seq<Seq<char>>, c: char)
    requires
        parts.len() > 0,
        forall|i: int| 0 <= i < parts.len() ==> !(#[trigger] parts[i]).contains(c),
    ensures
        text::pieces(text::joined(parts, seq![c]), c) == parts,
    decreases parts.len(),
{
    let s = text::joined(parts, seq![c]);
    let a = parts[0];
    text::lemma_find(s, c);
    if parts.len() == 1 {
        assert(s == a);
        assert(parts =~= seq![a]);
    } else {
        lemma_joined_front(parts, seq![c]);
        let rest = parts.skip(1);
        let b = text::joined(rest, seq![c]);
        assert forall|i: int| 0 <= i < rest.len() implies !(#[trigger] rest[i]).contains(c) by {
            assert(rest[i] == parts[i + 1]);
        }
        lemma_pieces_of_joined(rest, c);
        assert(s =~= a.push(c) + b);
        text::lemma_split_at_first(a, c, b);
        assert(seq![a] + rest =~= parts);
    }
}

/// A shell splits a command line into exactly the words that it was made of.
pub proof fn lemma_shell_reads_command_line(words: Seq<Seq<char>>)
    ensures
        shell_words(command_line(words)) == Some(words),
    decreases words.len(),
{
    let parts = all_quoted(words);
    reveal_strlit(" ");
    if words.len() == 0 {
        assert(command_line(words) =~= Seq::empty());
        assert(words =~= Seq::empty());
    } else if words.len() == 1 {
        lemma_shell_reads_quoted(words[0]);
        assert(words =~= seq![words[0]]);
    } else {
        lemma_joined_front(parts, " "@);
        assert(parts.skip(1) =~= all_quoted(words.skip(1)));
        let rest = " "@ + command_line(words.skip(1));
        lemma_quoted_then(words[0], rest);
        lemma_shell_reads_command_line(words.skip(1));
        assert(rest[0] == ' ');
        assert(rest.skip(1) =~= command_line(words.skip(1)));
        assert(seq![words[0]] + words.skip(1) =~= words);
    }
}

// ---------------------------------------------------------------------------
// Display width
// ---------------------------------------------------------------------------

/// The number of terminal columns that a text takes.
pub uninterp spec fn str_width(s: Seq<char>) -> nat;

/// Whether a text holds printable ASCII characters only.
pub open spec fn printable_ascii(s: Seq<char>) -> bool {
    forall|i: int| 0 <= i < s.len() ==> 0x20 <= (#[trigger] s[i] as u32) < 0x7f
}

/// `unicode_width::UnicodeWidthStr::width`: the display width of the text. It depends on the
/// text alone; printable ASCII characters take one column each, and so do spaces behind any text.
#[verifier::external_body]
pub(crate) fn width_of(s: &str) -> (r: usize)
    ensures
        r == str_width(s@),
        printable_ascii(s@) ==> r == s@.len(),
        forall|n: nat| #[trigger] str_width(s@ + text::spaces(n)) == r + n,
{
    unicode_width::UnicodeWidthStr::width(s)
}

/// A text with spaces behind it up to the given display width.
pub open spec fn padded(s: Seq<char>, w: nat, width: nat) -> Seq<char> {
    s + text::spaces(if w < width { (width - w) as nat } else { 0 })
}

/// Fill up with spaces to the given width, for a text of `w` columns.
pub fn pad_measured(s: &str, w: usize, width: usize) -> (r: String)
    ensures
        r@ == padded(s@, w as nat, width as nat),
{
    let n: usize = if w < width { width - w } else { 0 };
    let fill: String = text::spaces_of(n);
    s.to_owned().concat(fill.as_str())
}

/// Pad on the right by display width.
pub fn pad(s: &str, width: usize) -> (r: String)
    ensures
        r@ == padded(s@, str_width(s@), width as nat),
        str_width(s@) <= width ==> str_width(r@) == width,
        str_width(s@) > width ==> str_width(r@) == str_width(s@),
{
    let w: usize = width_of(s);
    pad_measured(s, w, width)
}

// ---------------------------------------------------------------------------
// Command output
// ---------------------------------------------------------------------------

pub open spec fn blank(s: Seq<char>) -> bool {
    text::stripped(s).len() == 0
}

/// The last line that is not blank.
pub open spec fn last_nonblank(lines: Seq<Seq<char>>) -> Option<Seq<char>>
    decreases lines.len(),
{
    if lines.len() == 0 {
        None
    } else if !blank(lines.last()) {
        Some(lines.last())
    } else {
        last_nonblank(lines.drop_last())
    }
}

/// The line that is found is not blank, and only blank lines follow it.
pub proof fn lemma_last_line(lines: Seq<Seq<char>>, i: int)
    ensures
        0 <= i < lines.len() && text::stripped(lines[i]).len() > 0 && (forall|j: int|
            i < j < lines.len() ==> text::stripped(#[trigger] lines[j]).len() == 0)
            ==> last_nonblank(lines) == Some(lines[i]),
        (forall|j: int| 0 <= j < lines.len() ==> text::stripped(#[trigger] lines[j]).len() == 0)
            ==> last_nonblank(lines) is None,
    decreases lines.len(),
{
    if lines.len() > 0 {
        let f = lines.drop_last();
        lemma_last_line(f, i);
        let k = lines.len() - 1;
        assert(lines.last() == lines[k]);
        assert(forall|j: int| 0 <= j < f.len() ==> f[j] == lines[j]);
    }
}

pub fn last_nonempty_line(s: &str) -> (r: Option<String>)
    ensures
        r is Some == last_nonblank(text::lines_of(s@)) is Some,
        r matches Some(l) ==> last_nonblank(text::lines_of(s@)) == Some(l@),
{
    let lines: Vec<String> = text::lines(s);
    let mut i: usize = lines.len();
    let ghost t = text::texts(lines@);
    assert(t.take(i as int) =~= t);
    while i > 0
        invariant
            i <= lines@.len(),
            t == text::texts(lines@),
            t == text::lines_of(s@),
            last_nonblank(t) == last_nonblank(t.take(i as int)),
        decreases i,
    {
        i -= 1;
        assert(t.take(i + 1).drop_last() =~= t.take(i as int));
        assert(t.take(i + 1).last() == lines@[i as int]@);
        if !text::trim(lines[i].as_str()).is_empty() {
            return Some(lines[i].clone());
        }
    }
    None
}

/// The last line of a command's error output, or a fixed text where there is none.
pub open spec fn error_detail(err: Seq<char>, otherwise: Seq<char>) -> Seq<char> {
    match last_nonblank(text::lines_of(err)) {
        Some(l) => l,
        None => otherwise,
    }
}

/// The error of a silent `limactl` run.
pub fn limactl_capture_error(err: &str) -> (r: String)
    ensures
        r@ == error_detail(err@, "limactl failed"@),
{
    match last_nonempty_line(err) {
        Some(l) => l,
        None => "limactl failed".to_owned(),
    }
}

/// The error of a `limactl` run on the terminal.
pub fn limactl_error(args: &Vec<String>) -> (r: String)
    ensures
        r@ == "limactl "@ + text::joined(text::texts(args@), " "@) + " failed"@,
{
    let all: String = text::join(args, " ");
    "limactl ".to_owned().concat(all.as_str()).concat(" failed")
}

/// The error of a `git` run.
pub fn git_error(args: &Vec<String>) -> (r: String)
    ensures
        r@ == "git "@ + text::joined(text::texts(args@), " "@) + " failed"@,
{
    let all: String = text::join(args, " ");
    "git ".to_owned().concat(all.as_str()).concat(" failed")
}

/// What a command printed, without white space around it; empty if it did not run.
pub open spec fn captured(out: Option<Seq<char>>) -> Seq<char> {
    match out {
        Some(s) => text::stripped(s),
        None => Seq::empty(),
    }
}

pub open spec fn opt_view(s: Option<&str>) -> Option<Seq<char>> {
    match s {
        Some(x) => Some(x@),
        None => None,
    }
}

pub fn command_output(out: Option<&str>) -> (r: String)
    ensures
        r@ == captured(opt_view(out)),
{
    match out {
        Some(s) => text::trim(s).to_owned(),
        None => {
            let e: String = String::new();
            assert(e@ =~= Seq::empty());
            e
        },
    }
}

/// The arguments of `limactl` that print an instance's status.
pub fn lima_status_args(name: &str) -> (r: Vec<String>)
    ensures
        text::texts(r@) == seq!["list"@, name@, "--format"@, "{{.Status}}"@],
{
    crate::plan::args4("list", name, "--format", "{{.Status}}")
}

/// The status of an instance from what `limactl` printed; empty if there is no such instance.
pub fn lima_status(out: Option<&str>) -> (r: String)
    ensures
        r@ == captured(opt_view(out)),
{
    command_output(out)
}

/// The status that is found is that of the instance's own line, wherever it stands; an instance
/// without a line has none.
pub proof fn lemma_status_is_the_instances(
    a: Seq<Seq<char>>,
    name: Seq<char>,
    status: Seq<char>,
    b: Seq<Seq<char>>,
)
    requires
        !name.contains('\t'),
        forall|i: int| 0 <= i < a.len() ==> !text::has_prefix(#[trigger] a[i], name.push('\t')),
    ensures
        status_in(a.push(name.push('\t') + status) + b, name) == status,
        status_in(a, name).len() == 0,
    decreases a.len(),
{
    let all = a.push(name.push('\t') + status) + b;
    if a.len() == 0 {
        assert(all[0] == name.push('\t') + status);
        text::lemma_split_at_first(name, '\t', status);
    } else {
        let rest = a.skip(1);
        assert forall|i: int| 0 <= i < rest.len() implies !text::has_prefix(
            #[trigger] rest[i],
            name.push('\t'),
        ) by {
            assert(rest[i] == a[i + 1]);
        }
        lemma_status_is_the_instances(rest, name, status, b);
        assert(all[0] == a[0]);
        assert(all.skip(1) =~= rest.push(name.push('\t') + status) + b);
        text::lemma_find(a[0], '\t');
        match text::split_at_first(a[0], '\t') {
            Some((n, st)) => {
                if n == name {
                    let k = text::find(a[0], '\t');
                    assert(a[0].take(k + 1) =~= name.push('\t'));
                    assert(text::has_prefix(a[0], name.push('\t')));
                }
            },
            None => {},
        }
    }
}

/// Output is read without the white space around it, and none as an empty text.
pub proof fn lemma_captured(s: Seq<char>, after: Seq<char>)
    requires
        s.len() > 0 ==> !text::is_space(s[0]) && !text::is_space(s.last()),
        forall|i: int| 0 <= i < after.len() ==> text::is_space(#[trigger] after[i]),
    ensures
        captured(Some(s + after)) == s,
        captured(None).len() == 0,
{
    assert(s + after =~= Seq::<char>::empty() + s + after);
    text::lemma_stripped_is_the_middle(Seq::empty(), s, after);
}

/// The files of wtx and of Lima's instances lie below the home directory.
pub proof fn lemma_directories(home: Seq<char>, name: Seq<char>)
    requires
        path::tidy(home),
        path::entry_name(name),
    ensures
        home_of(home) == home + "/"@ + ".wtx"@,
        lima_dir_of(home, name) == home + "/"@ + ".lima"@ + "/"@ + name,
{
    reveal_strlit(".wtx");
    reveal_strlit(".lima");
    reveal_strlit(".");
    reveal_strlit("..");
    assert("."@.len() == 1 && ".."@.len() == 2);
    assert(".wtx"@.len() == 4 && !".wtx"@.contains('/'));
    assert(".lima"@.len() == 5 && !".lima"@.contains('/'));
    path::lemma_entry_of_directory(home, ".wtx"@);
    path::lemma_entry_of_directory(home, ".lima"@);
    path::lemma_entry_of_directory(home + "/"@ + ".lima"@, name);
}

/// The status of an instance in a list of names and states with a tab between them.
pub open spec fn status_in(lines: Seq<Seq<char>>, name: Seq<char>) -> Seq<char>
    decreases lines.len(),
{
    if lines.len() == 0 {
        Seq::empty()
    } else {
        match text::split_at_first(lines[0], '\t') {
            Some((n, st)) => if n == name {
                st
            } else {
                status_in(lines.skip(1), name)
            },
            None => status_in(lines.skip(1), name),
        }
    }
}

pub fn lima_status_checked(name: &str, out: &str) -> (r: String)
    ensures
        r@ == status_in(text::lines_of(out@), name@),
{
    let lines: Vec<String> = text::lines(out);
    let ghost t = text::texts(lines@);
    let mut i: usize = 0;
    assert(t.skip(0) =~= t);
    while i < lines.len()
        invariant
            i <= lines@.len(),
            t == text::texts(lines@),
            t == text::lines_of(out@),
            status_in(t, name@) == status_in(t.skip(i as int), name@),
        decreases lines@.len() - i,
    {
        assert(t.skip(i as int)[0] == lines@[i as int]@);
        assert(t.skip(i as int).skip(1) =~= t.skip(i + 1));
        match text::split_once(lines[i].as_str(), '\t') {
            Some((n, st)) => {
                if text::same(n, name) {
                    return st.to_owned();
                }
            },
            None => {},
        }
        i += 1;
    }
    let e: String = String::new();
    assert(e@ =~= Seq::empty());
    e
}

/// The error of a failed listing of all instances.
pub fn lima_list_error(err: &str) -> (r: String)
    ensures
        r@ == "limactl list: "@ + error_detail(err@, "limactl list failed"@),
{
    let detail: String = match last_nonempty_line(err) {
        Some(l) => l,
        None => "limactl list failed".to_owned(),
    };
    "limactl list: ".to_owned().concat(detail.as_str())
}

/// What the host's `git` says is taken as it is, and the default only where it says nothing.
pub proof fn lemma_setting_is_taken(out: Seq<char>, fallback: Seq<char>)
    ensures
        out.len() > 0 ==> setting(out, fallback) == out,
        out.len() == 0 ==> setting(out, fallback) == fallback,
{
}

/// A setting of the host's `git`, or a default where it is not set.
pub open spec fn setting(out: Seq<char>, fallback: Seq<char>) -> Seq<char> {
    if out.len() == 0 {
        fallback
    } else {
        out
    }
}

pub fn git_config_global(out: Option<&str>, fallback: &str) -> (r: String)
    ensures
        r@ == setting(captured(opt_view(out)), fallback@),
{
    let s: String = command_output(out);
    if s.as_str().is_empty() {
        fallback.to_owned()
    } else {
        s
    }
}

} // verus!
