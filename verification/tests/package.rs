use xdeb::config::{Config, ConflictMode, HostLibc};
use xdeb::control::parse_control;
use xdeb::deps::{
    add_needed, finish_dependencies, find_shlib_dep, resolve_dependencies,
    should_skip_for_host_libc, split_pkg_version, DepContext, Resolution,
};
use xdeb::metadata::{
    digits_of, map_arch, normalize_version, parse_metadata, validate_pkgname, validate_version,
    PackageMeta,
};
use xdeb::render::render_package_preview;

fn strings(v: &[&str]) -> Vec<String> {
    v.iter().map(|s| s.to_string()).collect()
}

fn control_text(package: &str) -> String {
    format!(
        "Package: {package}\nVersion: 1.0-1\nArchitecture: all\nMaintainer: test <test@example.invalid>\nDescription: test package\n long description\n"
    )
}

fn meta_of(cfg: &Config, text: &str) -> Result<PackageMeta, String> {
    parse_metadata(cfg, &parse_control(text))
}

#[test]
fn control_fields_and_continuations() {
    let f = parse_control("Package: foo\nDescription: short\n more\n\tlast\nBroken line\nKey:  v  \n");
    assert_eq!(f.get("Package").as_deref(), Some("foo"));
    assert_eq!(f.get("Description").as_deref(), Some("short\nmore\nlast"));
    assert_eq!(f.get("Key").as_deref(), Some("v"));
    assert_eq!(f.get("Broken line"), None);
    let g = parse_control("A: 1\nA: 2\n");
    assert_eq!(g.get("A").as_deref(), Some("2"));
    let h = parse_control(" orphan\nB: x\n");
    assert_eq!(h.get("B").as_deref(), Some("x"));
}

#[test]
fn info_prints_package_metadata() {
    let cfg = Config::for_pkgroot("/", "/tmp/info");
    let meta = meta_of(&cfg, &control_text("metadata-preview")).unwrap();
    let lines = render_package_preview(&Vec::new(), &meta, false);
    assert!(lines.contains(&"name: metadata-preview".to_string()));
    assert!(lines.contains(&"arch: noarch".to_string()));
}

#[test]
fn info_json_prints_machine_readable_metadata() {
    let cfg = Config::for_pkgroot("/", "/tmp/json");
    let meta = meta_of(&cfg, &control_text("json-preview")).unwrap();
    let text = render_package_preview(&Vec::new(), &meta, true).join("\n");
    assert!(text.contains("\"name\": \"json-preview\""));
}

#[test]
fn invalid_package_name_is_rejected() {
    let cfg = Config::for_pkgroot("/", "/tmp/bad");
    let err = meta_of(&cfg, &control_text("bad name")).unwrap_err();
    assert!(err.contains("Invalid package name"));
}

#[test]
fn metadata_from_control_file() {
    let cfg = Config::for_pkgroot("/", "/tmp/m");
    let m = meta_of(&cfg, &control_text("tool")).unwrap();
    assert_eq!(m.name, "tool");
    assert_eq!(m.version, "1.0.1");
    assert_eq!(m.revision, "1");
    assert_eq!(m.arch, "noarch");
    assert_eq!(m.maintainer, "test <test@example.invalid>");
    assert_eq!(m.license, "");
    assert_eq!(m.short_desc, "test package");
    assert_eq!(m.long_desc, "test package\nlong description");
}

#[test]
fn metadata_overrides_and_errors() {
    let mut cfg = Config::for_pkgroot("/", "/tmp/m");
    cfg.name = Some("other".into());
    cfg.suffix = "-32bit".into();
    cfg.version = Some("beta".into());
    cfg.revision = Some("r2x5".into());
    cfg.arch = Some("amd64".into());
    let m = meta_of(&cfg, &control_text("tool")).unwrap();
    assert_eq!(m.name, "other-32bit");
    assert_eq!(m.version, "beta0");
    assert_eq!(m.revision, "25");
    assert_eq!(m.arch, "x86_64");

    let mut c2 = Config::for_pkgroot("/", "/tmp/m");
    c2.arch = Some("sparc".into());
    assert_eq!(
        meta_of(&c2, &control_text("tool")).unwrap_err(),
        "Invalid arch: sparc. Use '--arch=...' to set arch manually."
    );
    let c3 = Config::for_pkgroot("/", "/tmp/m");
    assert_eq!(
        meta_of(&c3, "Package: x\nVersion: 1\nArchitecture: all\n").unwrap_err(),
        "Neither long_desc nor short_desc provided by package"
    );
    let mut c4 = Config::for_pkgroot("/", "/tmp/m");
    c4.version = Some("1 0".into());
    assert_eq!(
        meta_of(&c4, &control_text("tool")).unwrap_err(),
        "Invalid package version '1 0'"
    );
    let mut c5 = Config::for_pkgroot("/", "/tmp/m");
    c5.revision = Some("x".into());
    assert_eq!(meta_of(&c5, &control_text("tool")).unwrap().revision, "1");
}

#[test]
fn description_fallbacks() {
    let cfg = Config::for_pkgroot("/", "/tmp/m");
    let m = meta_of(&cfg, "Package: x\nVersion: 1\nArchitecture: i386\nDescription:\n only long\n").unwrap();
    assert_eq!(m.short_desc, "\nonly long");
    assert_eq!(m.long_desc, "\nonly long");
    assert_eq!(m.arch, "i686");
}

#[test]
fn package_names_and_versions() {
    assert!(validate_pkgname("lib-foo_1.2+x").is_ok());
    assert_eq!(validate_pkgname("").unwrap_err(), "Invalid package name ''");
    assert_eq!(validate_pkgname("a/b").unwrap_err(), "Invalid package name 'a/b'");
    assert!(validate_version("1.0").is_ok());
    assert_eq!(validate_version("").unwrap_err(), "Invalid package version ''");
    assert_eq!(validate_version("1\t0").unwrap_err(), "Invalid package version '1\t0'");
    assert_eq!(normalize_version("1.0-2_3/4"), "1.0.2.3.4");
    assert_eq!(normalize_version(""), "0");
    assert_eq!(normalize_version("alpha"), "alpha0");
    assert_eq!(normalize_version(&normalize_version("x-y")), normalize_version("x-y"));
    assert_eq!(digits_of("a1b2"), "12");
    assert_eq!(map_arch("arm64").as_deref(), Some("aarch64"));
    assert_eq!(map_arch("armhf").as_deref(), Some("armv7l"));
    assert_eq!(map_arch("mips"), None);
}

const SHLIBS: &str = "libc.so.6 glibc-2.32_1\nlibz.so.1 zlib-1.2.11_4\nlibfoo.so.2.1 foo-2.1_1\nLIBUP.so up-1_1\nbroken\n";

#[test]
fn shlib_lookup() {
    assert_eq!(find_shlib_dep(SHLIBS, "libz.so.1").as_deref(), Some("zlib-1.2.11_4"));
    assert_eq!(find_shlib_dep(SHLIBS, "libup.so").as_deref(), Some("up-1_1"));
    assert_eq!(find_shlib_dep(SHLIBS, "libfoo.so").as_deref(), Some("foo-2.1_1"));
    assert_eq!(find_shlib_dep(SHLIBS, "libz.so"), Some("zlib-1.2.11_4".to_string()));
    assert_eq!(find_shlib_dep(SHLIBS, "libnone.so.3"), None);
    assert_eq!(find_shlib_dep(SHLIBS, "broken"), None);
}

#[test]
fn package_and_version_split() {
    assert_eq!(split_pkg_version("glibc-2.32_1"), ("glibc".to_string(), "2.32_1".to_string()));
    assert_eq!(split_pkg_version("gtk+3-3.24_1"), ("gtk+3".to_string(), "3.24_1".to_string()));
    assert_eq!(split_pkg_version("plain"), ("plain".to_string(), "0".to_string()));
    let (p, v) = split_pkg_version("a-b-c");
    assert_eq!(format!("{p}-{v}"), "a-b-c");
}

#[test]
fn host_libc_filter() {
    assert!(should_skip_for_host_libc(HostLibc::Glibc, "musl-1.2"));
    assert!(!should_skip_for_host_libc(HostLibc::Glibc, "glibc"));
    assert!(should_skip_for_host_libc(HostLibc::Musl, "glibc"));
    assert!(should_skip_for_host_libc(HostLibc::Musl, "glibc-devel"));
    assert!(should_skip_for_host_libc(HostLibc::Musl, "glibc>=2"));
    assert!(!should_skip_for_host_libc(HostLibc::Musl, "glibcx"));
    assert!(!should_skip_for_host_libc(HostLibc::Unknown, "musl"));
}

#[test]
fn needed_libraries_are_collected_sorted() {
    let mut needed: Vec<String> = Vec::new();
    add_needed(&mut needed, "Dynamic Section:\n  NEEDED               libz.so.1\n  NEEDED libc.so.6\n  SONAME x\n");
    add_needed(&mut needed, "  NEEDED libc.so.6\n NEEDED\n");
    assert_eq!(needed, strings(&["libc.so.6", "libz.so.1"]));
}

fn ctx(host: HostLibc, lazy: bool, not_deps: &[&str]) -> DepContext {
    DepContext {
        destdir_names: strings(&["usr", "libown.so.1"]),
        shlibs_lines: strings(&SHLIBS.lines().collect::<Vec<_>>()),
        lazy_soname: lazy,
        suffix: String::new(),
        host,
        not_dependencies: strings(not_deps),
    }
}

#[test]
fn resolution_explains_each_library() {
    let needed = strings(&["libc.so.6", "libfoo.so.3", "libown.so.1", "libz.so.1", "libzz.so.9"]);
    let r = resolve_dependencies(&needed, &ctx(HostLibc::Musl, true, &["zlib"]));
    assert_eq!(r.deps, strings(&["foo>=2.1_1"]));
    assert_eq!(
        r.explanations,
        strings(&[
            "libc.so.6 -> glibc>=2.32_1 skipped for host libc",
            "libfoo.so.3 -> foo>=2.1_1",
            "libown.so.1 -> provided by current package",
            "libz.so.1 -> zlib>=1.2.11_4 skipped by --not-deps",
            "libzz.so.9 -> unresolved",
        ])
    );
    assert_eq!(
        r.warnings,
        strings(&[
            "Unable to find dependency for libfoo.so.3, trying lazy",
            "Unable to find dependency for libzz.so.9, trying lazy",
            "Unable to find dependency for libzz.so.9",
        ])
    );
}

#[test]
fn resolution_collects_sorted_dependencies() {
    let needed = strings(&["libz.so.1", "libc.so.6", "libbar.so.2"]);
    let mut c = ctx(HostLibc::Glibc, false, &[]);
    c.suffix = "-32bit".to_string();
    let r = resolve_dependencies(&needed, &c);
    assert_eq!(r.deps, strings(&["glibc-32bit>=2.32_1", "zlib-32bit>=1.2.11_4"]));
    assert_eq!(r.explanations[2], "libbar.so.2 -> unresolved");
    assert_eq!(r.warnings, strings(&["Unable to find dependency for libbar.so.2"]));
}

#[test]
fn missing_dependencies_fail_when_asked() {
    let mut cfg = Config::for_pkgroot("/", "/tmp/d");
    cfg.dependencies = strings(&["b", "a", "b"]);
    cfg.missing_deps_error = true;
    let res = Resolution {
        deps: strings(&["c"]),
        explanations: strings(&["libx -> unresolved"]),
        warnings: Vec::new(),
    };
    assert_eq!(
        finish_dependencies(&mut cfg, Some(res)).unwrap_err(),
        "unresolved shared library dependencies found"
    );
    let mut ok = Config::for_pkgroot("/", "/tmp/d");
    ok.dependencies = strings(&["tar>0", "b", "tar>0"]);
    let res2 = Resolution { deps: strings(&["a"]), explanations: strings(&["l -> a"]), warnings: Vec::new() };
    assert!(finish_dependencies(&mut ok, Some(res2)).is_ok());
    assert_eq!(ok.dependencies, strings(&["a", "b", "tar>0"]));
    assert_eq!(ok.dep_explanations, strings(&["l -> a"]));
    let mut warn = Config::for_pkgroot("/", "/tmp/d");
    let res3 = Resolution { deps: Vec::new(), explanations: strings(&["q -> unresolved"]), warnings: Vec::new() };
    assert!(finish_dependencies(&mut warn, Some(res3)).is_ok());
    assert_eq!(warn.conflict_mode, ConflictMode::Error);
}

#[test]
fn accepted_metadata_is_valid() {
    let mut cfg = Config::for_pkgroot("/", "/tmp/v");
    cfg.revision = Some("v7".into());
    let m = meta_of(&cfg, &control_text("pkg.name+x")).unwrap();
    assert!(validate_pkgname(&m.name).is_ok());
    assert!(validate_version(&m.version).is_ok());
    assert!(!m.revision.is_empty() && m.revision.chars().all(|c| c.is_ascii_digit()));
    assert!(map_arch("all").as_deref() == Some(m.arch.as_str()));
    assert!(!m.short_desc.is_empty() && !m.long_desc.is_empty());
}

#[test]
fn control_fields_read_back_writes() {
    let mut f = xdeb::control::ControlFields::new();
    f.insert("A".to_string(), "1".to_string());
    f.insert("B".to_string(), "2".to_string());
    f.insert("A".to_string(), "3".to_string());
    assert_eq!(f.get("A").as_deref(), Some("3"));
    assert_eq!(f.get("B").as_deref(), Some("2"));
    assert_eq!(f.get("C"), None);
    assert_eq!(f.entries.len(), 2);
}
