use xdeb::config::{join_path, normalize_path};
use xdeb::order::{sort_dedup, str_lt};
use xdeb::paths::{
    with_extension,
    check_archive_listing, check_symlink_target, file_name, is_xbps_file_name, path_escapes_root,
    trim_extensions,
};
use xdeb::text::{join_strings, split_lines, split_words, trim_str};

fn strings(v: &[&str]) -> Vec<String> {
    v.iter().map(|s| s.to_string()).collect()
}

#[test]
fn split_words_drops_all_whitespace() {
    assert_eq!(split_words("  a\tb \n c  "), strings(&["a", "b", "c"]));
    assert!(split_words(" \t\n").is_empty());
    assert_eq!(split_words("tar>0 xz"), strings(&["tar>0", "xz"]));
}

#[test]
fn split_lines_follows_str_lines() {
    assert_eq!(split_lines("a\r\nb\n\nc"), strings(&["a", "b", "", "c"]));
    assert_eq!(split_lines("a\n"), strings(&["a"]));
    assert_eq!(split_lines("x\r"), strings(&["x\r"]));
    assert!(split_lines("").is_empty());
}

#[test]
fn trim_removes_unicode_whitespace() {
    assert_eq!(trim_str("  yes\n"), "yes");
    assert_eq!(trim_str("\u{a0}x\u{85}"), "x");
    assert_eq!(trim_str("   "), "");
}

#[test]
fn join_strings_separates() {
    assert_eq!(join_strings(&strings(&["a", "b", "c"]), " "), "a b c");
    assert_eq!(join_strings(&Vec::new(), ", "), "");
    assert_eq!(join_strings(&strings(&["only"]), ", "), "only");
}

#[test]
fn trim_extensions_counts_from_the_end() {
    assert_eq!(trim_extensions("foo-1.0_1.x86_64.xbps", 2), "foo-1.0_1");
    assert_eq!(trim_extensions("package.deb", 1), "package");
    assert_eq!(trim_extensions("noext", 3), "noext");
    assert_eq!(trim_extensions("a.b.c", 5), "a");
}

#[test]
fn trim_extensions_composes() {
    let once = trim_extensions(&trim_extensions("a.b.c.d", 1), 2);
    assert_eq!(once, trim_extensions("a.b.c.d", 3));
}

#[test]
fn file_name_is_the_last_normal_component() {
    assert_eq!(file_name("/tmp/x/pkg.deb").as_deref(), Some("pkg.deb"));
    assert_eq!(file_name("https://example.invalid/dl/pkg.deb").as_deref(), Some("pkg.deb"));
    assert_eq!(file_name("dir/"), Some("dir".to_string()));
    assert_eq!(file_name("a/.."), None);
    assert_eq!(file_name("/"), None);
}

#[test]
fn escaping_paths_are_detected() {
    assert!(path_escapes_root("/etc/passwd"));
    assert!(path_escapes_root("usr/../../etc"));
    assert!(!path_escapes_root("./usr/bin/tool"));
    assert!(!path_escapes_root("usr/..bin"));
}

#[test]
fn archive_listing_rejects_unsafe_paths() {
    assert!(check_archive_listing("data.tar", "./\n./usr/\n./usr/bin/x\n").is_ok());
    let e = check_archive_listing("data.tar", "./usr/\n../evil\n/abs\n").unwrap_err();
    assert_eq!(e, "archive 'data.tar' contains unsafe path '../evil'");
}

#[test]
fn symlink_targets_must_stay_inside() {
    assert!(check_symlink_target("/d/usr/bin/l", "tool").is_ok());
    let e = check_symlink_target("/d/usr/bin/bad-link", "/etc/passwd").unwrap_err();
    assert_eq!(e, "unsafe symlink '/d/usr/bin/bad-link' -> '/etc/passwd' escapes package root");
    assert!(check_symlink_target("/d/l", "../x").is_err());
}

#[test]
fn xbps_file_names() {
    assert!(is_xbps_file_name("foo-1_1.noarch.xbps"));
    assert!(!is_xbps_file_name(".xbps"));
    assert!(!is_xbps_file_name("foo.xbps.sig2"));
    assert!(!is_xbps_file_name("x86_64-repodata"));
}

#[test]
fn normalize_path_resolves_dots() {
    assert_eq!(normalize_path("/home/u", "a/./b/../c"), "/home/u/a/c");
    assert_eq!(normalize_path("/home/u", "/x//y/"), "/x/y");
    assert_eq!(normalize_path("/", "../.."), "/");
    assert_eq!(normalize_path("/home/u", "."), "/home/u");
}

#[test]
fn normalize_path_twice_is_once() {
    for p in ["a/../b/./c", "/x/../../y", "..", "./q//r/"] {
        let once = normalize_path("/w/d", p);
        assert_eq!(normalize_path("/w/d", &once), once);
    }
}

#[test]
fn join_path_adds_one_separator() {
    assert_eq!(join_path("/root", "workdir"), "/root/workdir");
    assert_eq!(join_path("/", "workdir"), "/workdir");
    assert_eq!(join_path("", "x"), "x");
}

#[test]
fn string_order_is_code_point_order() {
    assert!(str_lt("a", "b"));
    assert!(str_lt("ab", "abc"));
    assert!(!str_lt("b", "ab"));
    assert!(str_lt("Z", "a"));
    assert!(!str_lt("same", "same"));
}

#[test]
fn sort_dedup_matches_a_sorted_set() {
    let v = strings(&["zlib>=1", "glibc>=2.32_1", "zlib>=1", "attr>=2"]);
    assert_eq!(sort_dedup(v), strings(&["attr>=2", "glibc>=2.32_1", "zlib>=1"]));
    let w = strings(&["b", "a", "c", "a", "b"]);
    let mut expected = w.clone();
    expected.sort();
    expected.dedup();
    assert_eq!(sort_dedup(w), expected);
}

#[test]
fn joined_words_split_back() {
    for s in ["  tar>0   xz\tzstd\n", "", "one"] {
        let ws = split_words(s);
        assert!(ws.iter().all(|w| !w.is_empty() && !w.chars().any(char::is_whitespace)));
        assert_eq!(split_words(&join_strings(&ws, " ")), ws);
    }
}

#[test]
fn with_extension_matches_path() {
    for p in [
        "/p/shlibs", "a/b.txt", ".bashrc", "a/b/", "a/.", "/", "..", "a/..", "a.tar.gz", "", ".",
        "./", "x/.hidden.tar", "//a//", "a/b/./",
    ] {
        let expected = std::path::Path::new(p).with_extension("meta");
        assert_eq!(with_extension(p, "meta"), expected.to_string_lossy(), "path {p:?}");
    }
}

#[test]
fn trimming_keeps_a_prefix_and_the_other_dots() {
    for (s, n) in [("a.b.c.d", 2usize), ("a.b", 5), ("noext", 1), (".hidden", 1), ("x.y", 0)] {
        let t = trim_extensions(s, n);
        assert!(s.starts_with(&t));
        assert_eq!(t.matches('.').count(), s.matches('.').count().saturating_sub(n));
    }
}

#[test]
fn symlink_checking_follows_strictness() {
    let links = vec![
        ("/d/usr/bin/ok".to_string(), "tool".to_string()),
        ("/d/usr/bin/zoom".to_string(), "/opt/zoom/ZoomLauncher".to_string()),
        ("/d/usr/bin/up".to_string(), "../../etc".to_string()),
    ];
    assert_eq!(
        xdeb::paths::validate_symlinks(true, &links).unwrap_err(),
        "unsafe symlink '/d/usr/bin/zoom' -> '/opt/zoom/ZoomLauncher' escapes package root"
    );
    assert!(xdeb::paths::validate_symlinks(false, &links).is_ok());
    assert!(xdeb::paths::validate_symlinks(true, &links[..1].to_vec()).is_ok());
}

#[test]
fn normalize_path_examples() {
    assert_eq!(normalize_path("/home/u", "/a/./b/../c"), "/a/c");
    assert_eq!(normalize_path("/home/u", "/.."), "/");
}
