use xdeb::config::{Config, ConflictMode, HostLibc};
use xdeb::metadata::PackageMeta;
use xdeb::numbers::{
    decimal_string, fetched_time, parse_u32, parse_u64, parse_uid, shlibs_is_stale, shlibs_meta_text,
    SHLIBS_URL,
};
use xdeb::packaging::{
    build_finish, build_tools, conflict_level, finish_tree_check, helper_from_output,
    tree_entry_action, xbps_create_args, BuildFinish, EntryAction, TreeEntry,
};
use xdeb::render::{
    command_probe, json_escape, package_file, package_id, post_extract_command,
    render_package_preview, shell_quote, shell_quote_str,
};
use xdeb::run::{
    check_basepkg, created_dirs, dependency_summary, first_with_prefix, next_stage, require_shlibs,
    Stage,
};
use xdeb::system::{
    check_command, color_enabled, conflict_move_message, conversion_tools, detect_host_libc,
    doctor_report, doctor_tools, is_affirmative, is_elf_magic, known_conflict_moves, log_line,
    owned_paths, parse_python_minor, privilege_helper, python_dir_version, warn_maintainer_scripts,
    LogLevel,
};

fn strings(v: &[&str]) -> Vec<String> {
    v.iter().map(|s| s.to_string()).collect()
}

fn meta() -> PackageMeta {
    PackageMeta {
        name: "foo".into(),
        version: "1.0".into(),
        revision: "2".into(),
        arch: "x86_64".into(),
        license: "MIT".into(),
        maintainer: "Me <me@x>".into(),
        short_desc: "Short \"quoted\"".into(),
        long_desc: "Line one\nLine two".into(),
    }
}

#[test]
fn json_escape_exact() {
    assert_eq!(json_escape("a\\b\"c\nd\re\tf"), "a\\\\b\\\"c\\nd\\re\\tf");
    assert_eq!(json_escape("plain ü"), "plain ü");
    assert_eq!(json_escape(""), "");
}

#[test]
fn shell_quoting() {
    assert_eq!(shell_quote_str("it's"), "'it'\\''s'");
    assert_eq!(shell_quote_str(""), "''");
    assert_eq!(shell_quote("/tmp/a b"), "'/tmp/a b'");
    assert_eq!(command_probe("xz"), "command -v 'xz' >/dev/null 2>&1");
    assert_eq!(post_extract_command("/dev/stdin"), ". '/dev/stdin'");
}

#[test]
fn package_file_names() {
    assert_eq!(package_id(&meta()), "foo-1.0_2");
    assert_eq!(package_file(&meta()), "foo-1.0_2.x86_64.xbps");
}

#[test]
fn text_preview() {
    let lines = render_package_preview(&strings(&["a>=1", "b>=2"]), &meta(), false);
    assert_eq!(
        lines,
        strings(&[
            "name: foo",
            "version: 1.0",
            "revision: 2",
            "arch: x86_64",
            "maintainer: Me <me@x>",
            "license: MIT",
            "short_desc: Short \"quoted\"",
            "long_desc: Line one\\nLine two",
            "dependencies: a>=1 b>=2",
            "output: foo-1.0_2.x86_64.xbps",
        ])
    );
}

#[test]
fn json_preview() {
    let lines = render_package_preview(&strings(&["a>=1", "b\"c"]), &meta(), true);
    assert_eq!(lines.len(), 12);
    assert_eq!(lines[0], "{");
    assert_eq!(lines[1], "  \"name\": \"foo\",");
    assert_eq!(lines[7], "  \"short_desc\": \"Short \\\"quoted\\\"\",");
    assert_eq!(lines[8], "  \"long_desc\": \"Line one\\nLine two\",");
    assert_eq!(lines[9], "  \"dependencies\": [\"a>=1\", \"b\\\"c\"],");
    assert_eq!(lines[10], "  \"output\": \"foo-1.0_2.x86_64.xbps\"");
    assert_eq!(lines[11], "}");
    let empty = render_package_preview(&Vec::new(), &meta(), true);
    assert_eq!(empty[9], "  \"dependencies\": [],");
}

#[test]
fn decimal_numbers() {
    assert_eq!(decimal_string(0), "0");
    assert_eq!(decimal_string(1700000000), "1700000000");
    assert_eq!(decimal_string(u64::MAX), "18446744073709551615");
    assert_eq!(parse_u64("18446744073709551615"), Some(u64::MAX));
    assert_eq!(parse_u64("18446744073709551616"), None);
    assert_eq!(parse_u64("+42"), Some(42));
    assert_eq!(parse_u64("+"), None);
    assert_eq!(parse_u64("-1"), None);
    assert_eq!(parse_u64(""), None);
    assert_eq!(parse_u64("007"), Some(7));
    assert_eq!(parse_u64("1 "), None);
    assert_eq!(parse_u32("4294967296"), None);
    assert_eq!(parse_u32("4294967295"), Some(u32::MAX));
    for n in [0u64, 9, 10, 12345, u64::MAX] {
        assert_eq!(parse_u64(&decimal_string(n)), Some(n));
        assert_eq!(decimal_string(n), n.to_string());
    }
}

#[test]
fn shlibs_metadata_and_staleness() {
    let text = shlibs_meta_text(1000);
    assert_eq!(text, format!("url={SHLIBS_URL}\nfetched_unix=1000\n"));
    assert_eq!(fetched_time(&text), Some(1000));
    assert!(!shlibs_is_stale(Some(&text), 1000, 30));
    assert!(!shlibs_is_stale(Some(&text), 1000 + 30 * 86400, 30));
    assert!(shlibs_is_stale(Some(&text), 1001 + 30 * 86400, 30));
    assert!(!shlibs_is_stale(Some(&text), 5, 30));
    assert!(shlibs_is_stale(None, 0, 30));
    assert!(shlibs_is_stale(Some("url=x\n"), 0, 30));
    assert_eq!(fetched_time("fetched_unix=abc\nfetched_unix=7\n"), Some(7));
    assert_eq!(fetched_time("fetched_unix= 7\n"), None);
}

#[test]
fn uid_parsing() {
    assert_eq!(parse_uid(Some("0\n")), 0);
    assert_eq!(parse_uid(Some(" 1000 ")), 1000);
    assert_eq!(parse_uid(Some("root")), u32::MAX);
    assert_eq!(parse_uid(None), u32::MAX);
}

#[test]
fn required_tools() {
    assert!(check_command("xz", "xz", true).is_ok());
    assert_eq!(
        check_command("ar", "binutils", false).unwrap_err(),
        "Executable 'ar' from package 'binutils' not found."
    );
    let tools = conversion_tools();
    assert_eq!(tools.len(), 5);
    assert_eq!(tools[3], ("ar".to_string(), "binutils".to_string()));
    let all = doctor_tools();
    assert_eq!(all.len(), 8);
    assert_eq!(all[7], ("xbps-install".to_string(), "xbps".to_string()));
    let found = vec![true, false, true, true, true, true, true, true];
    let (lines, ok) = doctor_report(&all, &found);
    assert!(!ok);
    assert_eq!(lines[0], "ok: xz");
    assert_eq!(lines[1], "missing: tar from package tar");
    let (_, all_ok) = doctor_report(&all, &vec![true; 8]);
    assert!(all_ok);
}

#[test]
fn privilege_helpers() {
    assert_eq!(privilege_helper(true, true).unwrap(), "sudo");
    assert_eq!(privilege_helper(false, true).unwrap(), "doas");
    assert_eq!(privilege_helper(false, false).unwrap_err(), "Neither sudo nor doas found");
    assert_eq!(helper_from_output("/usr/bin/sudo\n/usr/bin/doas\n").unwrap(), "/usr/bin/sudo");
    assert_eq!(helper_from_output("").unwrap_err(), "Neither sudo nor doas found");
}

#[test]
fn host_libc_detection() {
    assert_eq!(detect_host_libc("musl libc (x86_64)\nVersion 1.2.4", false), HostLibc::Musl);
    assert_eq!(detect_host_libc("ldd (GNU libc) 2.39", false), HostLibc::Glibc);
    assert_eq!(detect_host_libc("ldd (Ubuntu GLIBC 2.35)", true), HostLibc::Glibc);
    assert_eq!(detect_host_libc("", true), HostLibc::Musl);
    assert_eq!(detect_host_libc("", false), HostLibc::Unknown);
}

#[test]
fn python_versions() {
    assert_eq!(parse_python_minor("Python 3.12.1\n").as_deref(), Some("3.12"));
    assert_eq!(parse_python_minor("Python 3.9").as_deref(), Some("3.9"));
    assert_eq!(parse_python_minor("Python 3"), None);
    assert_eq!(parse_python_minor("no version"), None);
    assert_eq!(parse_python_minor("x 2a.b.c"), Some("2a.b".to_string()));
    assert_eq!(python_dir_version(""), "3");
    let moves = known_conflict_moves("3.12");
    assert_eq!(moves.len(), 8);
    assert_eq!(moves[4].src, "sbin");
    assert_eq!(moves[4].dst_name, "bin");
    assert_eq!(moves[7].dst_dir, "usr/lib/python3.12");
    assert_eq!(moves[7].dst_name, "site-packages");
    assert_eq!(conflict_move_message(&moves[6]), "Moved conflict 'usr/lib64' -> 'usr/lib'");
}

#[test]
fn confirmation_answers() {
    for yes in ["y", "Y", "yes", "YES", " yes\n"] {
        assert!(is_affirmative(yes));
    }
    for no in ["", "n", "Yes", "yess", "y y"] {
        assert!(!is_affirmative(no));
    }
}

#[test]
fn maintainer_script_warnings() {
    let w = warn_maintainer_scripts(&strings(&["postrm", "control", "preinst"]));
    assert_eq!(
        w,
        strings(&[
            "Debian maintainer script 'preinst' is present but will not run automatically in XBPS",
            "Debian maintainer script 'postrm' is present but will not run automatically in XBPS",
        ])
    );
    assert!(warn_maintainer_scripts(&Vec::new()).is_empty());
}

#[test]
fn log_lines() {
    assert!(color_enabled(false, None));
    assert!(!color_enabled(true, None));
    assert!(!color_enabled(false, Some("never")));
    assert!(color_enabled(false, Some("always")));
    assert_eq!(log_line(LogLevel::Info, "hi", false), "I hi");
    assert_eq!(log_line(LogLevel::Warn, "hi", false), "W hi");
    assert_eq!(log_line(LogLevel::Crit, "hi", true), "\x1b[1;31mE\x1b[0;1m hi\x1b[0m");
}

#[test]
fn elf_magic() {
    assert!(is_elf_magic(&[0x7f, b'E', b'L', b'F', 2]));
    assert!(!is_elf_magic(&[0x7f, b'E', b'L']));
    assert!(!is_elf_magic(b"#!/bin/sh"));
}

#[test]
fn installed_paths_from_query() {
    let p = owned_paths("/usr/bin/b\n/usr/lib/x -> /usr/lib/y\n/usr/bin/b\n");
    assert_eq!(p, strings(&["/usr/bin/b", "/usr/lib/x"]));
}

fn entry(shown: &str) -> TreeEntry {
    TreeEntry {
        is_dir: false,
        is_empty_dir: false,
        is_symlink: false,
        system_exists: true,
        system_is_dir: false,
        system_is_symlink: false,
        owned_by_package: false,
        shown: shown.to_string(),
    }
}

#[test]
fn tree_entries() {
    let e = entry("usr/bin/x");
    assert!(matches!(tree_entry_action(false, true, &e), EntryAction::Conflict(m) if m == "Conflict: 'usr/bin/x'"));
    assert!(matches!(tree_entry_action(false, false, &e), EntryAction::Skip));
    let mut owned = entry("a");
    owned.owned_by_package = true;
    assert!(matches!(tree_entry_action(false, true, &owned), EntryAction::Skip));
    let mut dir = entry("usr/share/empty");
    dir.is_dir = true;
    dir.is_empty_dir = true;
    assert!(matches!(tree_entry_action(true, true, &dir), EntryAction::RemoveEmptyDir));
    assert!(matches!(
        tree_entry_action(false, true, &dir),
        EntryAction::Conflict(m) if m == "Conflict: 'usr/share/empty'. Use '-e' to remove automatically."
    ));
    let mut both = entry("usr");
    both.is_dir = true;
    both.system_is_dir = true;
    assert!(matches!(tree_entry_action(false, true, &both), EntryAction::Skip));
    let mut missing = entry("new");
    missing.system_exists = false;
    assert!(matches!(tree_entry_action(false, true, &missing), EntryAction::Skip));
}

#[test]
fn conflicts_refuse_the_package() {
    assert_eq!(conflict_level(ConflictMode::Warn), Some(LogLevel::Warn));
    assert_eq!(conflict_level(ConflictMode::Auto), Some(LogLevel::Crit));
    assert_eq!(conflict_level(ConflictMode::Ignore), None);
    let mut c = Config::for_pkgroot("/", "/p");
    assert_eq!(
        finish_tree_check(&mut c, true).unwrap(),
        "Consider (re)moving file(s) from '/p/destdir' and run `xdeb -rb`"
    );
    assert!(c.refused);
    let mut w = Config::for_pkgroot("/", "/p");
    w.conflict_mode = ConflictMode::Warn;
    assert!(finish_tree_check(&mut w, true).is_none());
    assert!(!w.refused);
    let mut n = Config::for_pkgroot("/", "/p");
    assert!(finish_tree_check(&mut n, false).is_none());
    assert!(!n.refused);
}

#[test]
fn xbps_create_arguments() {
    let mut c = Config::for_pkgroot("/", "/p");
    c.dependencies = strings(&["a>=1", "b>=2"]);
    c.provides = strings(&["x-1_1"]);
    let a = xbps_create_args(&c, &meta(), "opts");
    assert_eq!(
        a,
        strings(&[
            "-q", "-t", "xdeb", "-A", "x86_64", "-n", "foo-1.0_2", "-m", "Me <me@x>", "-s",
            "Short \"quoted\"", "-S", "Line one\nLine two", "-l", "MIT", "-D", "a>=1 b>=2", "-C", "",
            "-R", "", "-P", "x-1_1", "--build-options", "opts", "/p/destdir",
        ])
    );
}

#[test]
fn after_the_build() {
    let mut c = Config::for_pkgroot("/", "/p");
    assert_eq!(build_tools(&c), vec![("xbps-create".to_string(), "xbps".to_string()), ("xbps-rindex".to_string(), "xbps".to_string())]);
    assert!(matches!(build_finish(&c, &meta()), BuildFinish::Hint(h) if h == "Install using `xbps-install -R /p/binpkgs foo-1.0_2`"));
    c.opt_install = true;
    c.opt_register = false;
    assert_eq!(build_tools(&c).len(), 2);
    assert!(matches!(build_finish(&c, &meta()), BuildFinish::Install));
    c.refused = true;
    assert!(matches!(build_finish(&c, &meta()), BuildFinish::Refused(e) if e == "Errors occurred. Do not install the package on this system!"));
}

#[test]
fn convert_dry_run_does_not_build_xbps() {
    let mut c = Config::for_pkgroot("/", "/p");
    c.dry_run = true;
    let mut s = Stage::Start;
    let mut seen = Vec::new();
    while s != Stage::Done {
        s = next_stage(&c, s);
        seen.push(s);
    }
    assert!(seen.contains(&Stage::Preview));
    assert!(!seen.contains(&Stage::Build));
    assert!(!seen.contains(&Stage::CheckTree));
}

#[test]
fn stages_follow_the_settings() {
    let mut c = Config::for_pkgroot("/", "/p");
    let order = |c: &Config| {
        let mut s = Stage::Start;
        let mut v = Vec::new();
        loop {
            s = next_stage(c, s);
            if s == Stage::Done {
                break;
            }
            v.push(s);
        }
        v
    };
    assert_eq!(
        order(&c),
        vec![
            Stage::CheckTools,
            Stage::Clean,
            Stage::CreateDirs,
            Stage::Extract,
            Stage::ReadMetadata,
            Stage::FixConflicts,
            Stage::FinishDeps,
            Stage::CheckTree,
            Stage::Build,
        ]
    );
    c.opt_deps = true;
    c.opt_quit = true;
    assert_eq!(
        order(&c),
        vec![
            Stage::CheckTools,
            Stage::Clean,
            Stage::CreateDirs,
            Stage::RequireShlibs,
            Stage::CheckShlibsAge,
            Stage::Extract,
            Stage::Quit,
        ]
    );
    assert_eq!(
        require_shlibs(true, false).unwrap_err(),
        "shlibs file not synced. Run xdeb with '-Sd' to fetch dependency file"
    );
    assert!(require_shlibs(false, false).is_ok());
    assert_eq!(
        created_dirs(&c),
        strings(&["/p", "/p/binpkgs", "/p/datadir", "/p/destdir", "/p/workdir"])
    );
    assert_eq!(dependency_summary(&strings(&["a", "b"])).unwrap(), "Resolved dependencies (a b)");
    assert!(dependency_summary(&Vec::new()).is_none());
}

#[test]
fn extraction_checks() {
    assert_eq!(
        check_basepkg(false, false).unwrap_err(),
        "Last argument is not a .deb file or does not exist"
    );
    assert!(check_basepkg(true, true).is_ok());
    let names = strings(&["debian-binary", "data.tar.xz", "control.tar.gz"]);
    assert_eq!(first_with_prefix(&names, "control.").unwrap(), "control.tar.gz");
    assert_eq!(first_with_prefix(&names, "data.").unwrap(), "data.tar.xz");
    assert_eq!(first_with_prefix(&names, "x.").unwrap_err(), "Missing x. archive");
}

#[test]
fn deepest_paths_come_first() {
    assert_eq!(xdeb::packaging::deepest_first(&vec![1, 3, 2, 3, 1]), vec![1, 3, 2, 0, 4]);
    assert!(xdeb::packaging::deepest_first(&Vec::new()).is_empty());
}

#[test]
fn clock_reads_seconds_since_epoch() {
    let t = xdeb::clock::unix_time();
    assert!(t > 1_600_000_000);
}

fn read_json_escapes(e: &str) -> String {
    let mut out = String::new();
    let mut it = e.chars();
    while let Some(c) = it.next() {
        if c == '\\' {
            match it.next() {
                Some('n') => out.push('\n'),
                Some('r') => out.push('\r'),
                Some('t') => out.push('\t'),
                Some(o) => out.push(o),
                None => out.push('\\'),
            }
        } else {
            out.push(c);
        }
    }
    out
}

fn read_shell_word(q: &str) -> String {
    let mut out = String::new();
    let mut quoted = false;
    let mut it = q.chars().peekable();
    while let Some(c) = it.next() {
        if quoted {
            if c == '\'' {
                quoted = false;
            } else {
                out.push(c);
            }
        } else if c == '\'' {
            quoted = true;
        } else if c == '\\' && it.peek().is_some() {
            out.push(it.next().unwrap());
        } else {
            out.push(c);
        }
    }
    out
}

#[test]
fn escapes_read_back() {
    for s in ["plain", "a\"b\\c", "tab\there\nnew\rline", "it's 'quoted'", "", "\\n literally"] {
        assert_eq!(read_json_escapes(&json_escape(s)), s);
        assert_eq!(read_shell_word(&shell_quote_str(s)), s);
    }
}

#[test]
fn build_from_destdir_keeps_the_tree() {
    let mut c = Config::for_pkgroot("/", "/p");
    c.opt_extract = false;
    let mut s = Stage::Start;
    let mut seen = Vec::new();
    loop {
        s = next_stage(&c, s);
        if s == Stage::Done {
            break;
        }
        seen.push(s);
    }
    assert_eq!(
        seen,
        vec![
            Stage::CheckTools,
            Stage::CreateDirs,
            Stage::ReadMetadata,
            Stage::FixConflicts,
            Stage::FinishDeps,
            Stage::CheckTree,
            Stage::Build,
        ]
    );
}

#[test]
fn clock_outcomes() {
    assert_eq!(xdeb::clock::seconds_or_zero(Some(1234)), 1234);
    assert_eq!(xdeb::clock::seconds_or_zero(None), 0);
}
