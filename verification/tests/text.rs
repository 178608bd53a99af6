use wtx::path;
use wtx::table;
use wtx::text;
use wtx::util;

fn owned(v: &[&str]) -> Vec<String> {
    v.iter().map(|s| s.to_string()).collect()
}

#[test]
fn lines_agree_with_std() {
    for s in ["", "\n", "a", "a\n", "a\n\nb", "a\r\nb\r", "\r\n", "x\ry\n", "日本\n語"] {
        let expected: Vec<String> = s.lines().map(str::to_string).collect();
        assert_eq!(text::lines(s), expected, "{s:?}");
    }
}

#[test]
fn splitting_agrees_with_std() {
    for s in ["", ":", "a", "a:b", ":a::b:", "日:本"] {
        let expected: Vec<String> = s.split(':').map(str::to_string).collect();
        assert_eq!(text::split(s, ':'), expected, "{s:?}");
        assert_eq!(text::split_once(s, ':'), s.split_once(':'), "{s:?}");
    }
    for s in ["", "  ", " a  b\t\nc ", "\u{3000}全角\u{3000}", "x"] {
        let expected: Vec<String> = s.split_whitespace().map(str::to_string).collect();
        assert_eq!(text::split_whitespace(s), expected, "{s:?}");
        assert_eq!(text::trim(s), s.trim(), "{s:?}");
    }
}

#[test]
fn white_space_is_that_of_unicode() {
    for n in 0..0x11_0000u32 {
        if let Some(c) = char::from_u32(n) {
            assert_eq!(text::char_is_space(c), c.is_whitespace(), "{n:x}");
        }
    }
}

#[test]
fn affixes_agree_with_std() {
    for s in ["", "v", "vv1", "ref: refs/heads/main", "a.json", ".json"] {
        for p in ["v", "ref: refs/heads/", ".json", "x"] {
            assert_eq!(text::strip_prefix(s, p), s.strip_prefix(p));
            assert_eq!(text::strip_suffix(s, p), s.strip_suffix(p));
            assert_eq!(text::trim_prefixes(s, p), s.trim_start_matches(p));
            assert_eq!(text::trim_suffixes(s, p), s.trim_end_matches(p));
            assert_eq!(text::contains(s, p), s.contains(p));
        }
    }
}

#[test]
fn substrings_agree_with_std() {
    for s in ["", "aaa", "a/b/a/c", "x/manifests/y/manifests/z", "é/é"] {
        for p in ["a", "aa", "/", "/manifests/", "é"] {
            assert_eq!(text::rsplit_once(s, p), s.rsplit_once(p), "{s:?} {p:?}");
            assert_eq!(text::replace(s, p, "__"), s.replace(p, "__"), "{s:?} {p:?}");
            assert_eq!(text::replace_once(s, p, "~"), s.replacen(p, "~", 1), "{s:?} {p:?}");
        }
    }
    assert_eq!(text::replace_once("abc", "", "~"), "abc".replacen("", "~", 1));
}

#[test]
fn numbers_agree_with_std() {
    for s in ["", "0", "00", "42", "+7", "+", "-1", "65535", "65536", "9 ", "１", "99999999999999999999"] {
        assert_eq!(text::parse_u16(s), s.parse::<u16>().ok(), "{s:?}");
        assert_eq!(text::parse_i32(s), s.parse::<i32>().ok(), "{s:?}");
        assert_eq!(text::parse_number(s, u64::MAX), s.parse::<u64>().ok(), "{s:?}");
    }
    for s in ["-", "--1", "-+1", "-2147483648", "-2147483649", "2147483647", "2147483648"] {
        assert_eq!(text::parse_i32(s), s.parse::<i32>().ok(), "{s:?}");
    }
    for n in [0, 9, 10, 99, 100, 42000, u64::MAX] {
        assert_eq!(text::dec_of(n), n.to_string());
    }
}

#[test]
fn order_and_case_agree_with_std() {
    let words = ["", "a", "B", "ab", "é", "日本", "\u{ffff}", "\u{10000}"];
    for a in words {
        for b in words {
            assert_eq!(text::before(a, b), a < b, "{a:?} {b:?}");
            assert_eq!(text::same(a, b), a == b);
        }
    }
    for c in ['a', 'z', 'A', 'Z', '@', '[', '0', 'é'] {
        assert_eq!(text::char_upper(c), c.to_ascii_uppercase());
        assert_eq!(text::char_lower(c), c.to_ascii_lowercase());
        assert_eq!(text::char_is_alnum(c), c.is_ascii_alphanumeric());
    }
}

#[test]
fn joining_agrees_with_std() {
    for v in [vec![], vec!["a"], vec!["a", "b", ""]] {
        assert_eq!(text::join(&owned(&v), ", "), v.join(", "));
    }
}

#[test]
fn tables_keep_their_keys_in_order() {
    let mut t: Vec<(String, u32)> = vec![];
    table::insert(&mut t, "web".to_string(), 1);
    table::insert(&mut t, "api".to_string(), 2);
    table::insert(&mut t, "db".to_string(), 3);
    table::insert(&mut t, "api".to_string(), 4);
    let keys: Vec<&str> = t.iter().map(|(k, _)| k.as_str()).collect();
    assert_eq!(keys, ["api", "db", "web"]);
    assert_eq!(table::get(&t, "api"), Some(&4));
    assert_eq!(table::remove(&mut t, "db"), Some(3));
    assert_eq!(table::remove(&mut t, "db"), None);
    assert!(!table::contains_key(&t, "db"));
    assert!(table::contains_key(&t, "web"));
}

const PATHS: [&str; 24] = [
    "", "/", "//", ".", "./", "..", "a", "a/", "a//", "/a", "//a", "/a/b", "a/b/", "./a", "a/.",
    "a/./b", "a/..", "/.", "/./a/.", "../a", "/a/b/../c", "/日/本", "a/.b", ".git",
];

#[test]
fn paths_agree_with_std() {
    for p in PATHS {
        let std = std::path::Path::new(p);
        assert_eq!(path::is_absolute(p), std.is_absolute(), "{p:?}");
        assert_eq!(
            path::file_name(p),
            std.file_name().map(|n| n.to_string_lossy().into_owned()),
            "{p:?}"
        );
        assert_eq!(
            path::parent(p),
            std.parent().map(|n| n.to_string_lossy().into_owned()),
            "{p:?}"
        );
        for q in PATHS {
            let other = std::path::Path::new(q);
            assert_eq!(path::same_path(p, q), std == other, "{p:?} {q:?}");
            assert_eq!(path::starts_with(p, q), std.starts_with(other), "{p:?} {q:?}");
            assert_eq!(path::join(p, q), std.join(other).to_string_lossy(), "{p:?} {q:?}");
        }
    }
}

#[test]
fn quoting_escapes_single_quotes() {
    assert_eq!(util::shq("plain"), "'plain'");
    assert_eq!(util::shq("it's"), r"'it'\''s'");
    assert_eq!(util::shq(""), "''");
    assert_eq!(util::quote_words(&owned(&["a b", "c'd"])), r"'a b' 'c'\''d'");
}

#[test]
fn padding_counts_display_columns() {
    assert_eq!(util::pad("ab", 4), "ab  ");
    assert_eq!(util::pad("日本", 6), "日本  ");
    assert_eq!(util::pad("日本語", 4), "日本語");
    assert_eq!(util::pad_measured("xyz", 1, 3), "xyz  ");
}

#[test]
fn directories_lie_below_the_home_directory() {
    assert_eq!(util::wtx_home("/Users/me"), "/Users/me/.wtx");
    assert_eq!(util::lima_dir("/Users/me", "vm"), "/Users/me/.lima/vm");
}

#[test]
fn the_last_line_that_says_something_is_the_error() {
    assert_eq!(util::last_nonempty_line("a\nb\n  \n"), Some("b".to_string()));
    assert_eq!(util::last_nonempty_line(" \n"), None);
    assert_eq!(util::limactl_capture_error("x\nfatal: no\n\n"), "fatal: no");
    assert_eq!(util::limactl_capture_error(""), "limactl failed");
    assert_eq!(util::limactl_error(&owned(&["stop", "vm"])), "limactl stop vm failed");
    assert_eq!(util::git_error(&owned(&["status"])), "git status failed");
    assert_eq!(util::lima_list_error(""), "limactl list: limactl list failed");
    assert_eq!(util::lima_list_error("boom\n"), "limactl list: boom");
}

#[test]
fn command_output_is_trimmed() {
    assert_eq!(util::command_output(Some(" Running\n")), "Running");
    assert_eq!(util::lima_status(None), "");
    assert_eq!(util::git_config_global(Some("\n"), "wtx"), "wtx");
    assert_eq!(util::git_config_global(Some("Ada\n"), "wtx"), "Ada");
    assert_eq!(util::lima_status_args("vm"), ["list", "vm", "--format", "{{.Status}}"]);
}

#[test]
fn a_status_belongs_to_exactly_its_instance() {
    let out = "api-dev\tStopped\napi\tRunning\nbroken\n";
    assert_eq!(util::lima_status_checked("api", out), "Running");
    assert_eq!(util::lima_status_checked("api-dev", out), "Stopped");
    assert_eq!(util::lima_status_checked("broken", out), "");
}
