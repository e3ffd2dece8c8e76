use xdeb::args::{apply_xdeb_options, parse_args_from, parse_conflict_mode, ArgsEnd, SetupAction};
use xdeb::config::{clean, clean_all, is_repodata_name, CleanStep, Config, ConflictMode};
use xdeb::env::EnvSettings;
use xdeb::install::{
    check_install_source, configure_install, install_package_name, install_paths,
    install_prompt, installed_package_name, parse_clean_args, parse_info_args, parse_install_args,
    select_xbps_package, CleanScope, InstallOptions, Parsed,
};
use xdeb::run::{select_command, Subcommand};

fn args(v: &[&str]) -> Vec<String> {
    v.iter().map(|s| s.to_string()).collect()
}

fn cfg() -> Config {
    Config::for_pkgroot("/work", "root")
}

#[test]
fn for_pkgroot_lays_out_directories() {
    let c = Config::for_pkgroot("/home/u", "./xdeb/../pkg");
    assert_eq!(c.pkgroot, "/home/u/pkg");
    assert_eq!(c.workdir, "/home/u/pkg/workdir");
    assert_eq!(c.destdir, "/home/u/pkg/destdir");
    assert_eq!(c.datadir, "/home/u/pkg/datadir");
    assert_eq!(c.binpkgs, "/home/u/pkg/binpkgs");
    assert_eq!(c.shlibs, "/home/u/pkg/shlibs");
    assert!(c.opt_extract && c.opt_register && c.opt_fix_conflict && c.opt_warn_conflict);
    assert!(!c.opt_deps && !c.opt_install && !c.dry_run && !c.missing_deps_error);
    assert_eq!(c.conflict_mode, ConflictMode::Error);
    assert!(c.strict_symlinks);
}

#[test]
fn clean_lists_work_data_and_dest() {
    let c = cfg();
    assert_eq!(clean(&c), args(&["/work/root/workdir", "/work/root/datadir", "/work/root/destdir"]));
    let steps = clean_all(&c);
    assert_eq!(steps.len(), 7);
    assert!(matches!(&steps[3], CleanStep::RemoveRepodata(p) if p == "/work/root/binpkgs"));
    assert!(matches!(&steps[4], CleanStep::Remove(p) if p == "/work/root/binpkgs"));
    assert!(matches!(&steps[5], CleanStep::Remove(p) if p == "/work/root/shlibs"));
    assert!(matches!(&steps[6], CleanStep::Remove(p) if p == "/work/root/shlibs.meta"));
    assert!(is_repodata_name("x86_64-repodata"));
    assert!(!is_repodata_name("repodata.bak"));
}

#[test]
fn long_options_set_fields() {
    let mut c = cfg();
    let out = parse_args_from(
        &mut c,
        &args(&[
            "--deps=tar>0 xz",
            "--name=foo",
            "--version=1.2",
            "--rev=3",
            "--arch=amd64",
            "--not-deps=glibc",
            "--conflicts=a",
            "--replaces=b",
            "--provides=c",
            "--dry-run",
            "--explain-deps",
            "--json",
            "--keep-workdir",
            "--missing-deps=error",
            "--post-extract=/dev/stdin",
            "pkg.deb",
        ]),
    );
    assert!(matches!(out.end, ArgsEnd::Done));
    assert!(out.actions.is_empty());
    assert_eq!(c.dependencies, args(&["tar>0", "xz"]));
    assert_eq!(c.name.as_deref(), Some("foo"));
    assert_eq!(c.version.as_deref(), Some("1.2"));
    assert_eq!(c.revision.as_deref(), Some("3"));
    assert_eq!(c.arch.as_deref(), Some("amd64"));
    assert_eq!(c.not_dependencies, args(&["glibc"]));
    assert_eq!(c.conflicts, args(&["a"]));
    assert_eq!(c.replaces, args(&["b"]));
    assert_eq!(c.provides, args(&["c"]));
    assert!(c.dry_run && c.explain_deps && c.json && c.keep_workdir && c.missing_deps_error);
    assert_eq!(c.post_extract.as_deref(), Some("/dev/stdin"));
    assert_eq!(c.basepkg.as_deref(), Some("pkg.deb"));
}

#[test]
fn short_flags_are_read_in_order() {
    let mut c = cfg();
    let out = parse_args_from(&mut c, &args(&["-Sdcm", "-eLIRqb", "file.deb"]));
    assert!(matches!(out.end, ArgsEnd::Done));
    assert_eq!(out.actions, vec![SetupAction::SyncShlibs, SetupAction::Clean]);
    assert!(c.opt_deps && c.opt_clean_dir && c.opt_lazy_soname && c.opt_install && c.opt_quit);
    assert!(!c.opt_register && !c.opt_extract);
    assert_eq!(c.suffix, "-32bit");
    assert_eq!(c.basepkg.as_deref(), Some("file.deb"));
}

#[test]
fn flag_i_bypasses_strict_checks() {
    let mut c = cfg();
    let out = parse_args_from(&mut c, &args(&["-i", "zoom.deb"]));
    assert!(matches!(out.end, ArgsEnd::Done));
    assert!(!c.opt_warn_conflict);
    assert_eq!(c.conflict_mode, ConflictMode::Ignore);
    assert!(!c.strict_symlinks);
}

#[test]
fn flag_f_warns_and_capital_f_disables_fixes() {
    let mut c = cfg();
    let out = parse_args_from(&mut c, &args(&["-fF"]));
    assert_eq!(out.actions, vec![SetupAction::WarnDeprecatedFix]);
    assert!(!c.opt_fix_conflict);
    assert!(c.basepkg.is_none());
}

#[test]
fn file_conflicts_modes() {
    for (v, mode, warn, fix) in [
        ("warn", ConflictMode::Warn, true, false),
        ("error", ConflictMode::Error, true, false),
        ("ignore", ConflictMode::Ignore, false, false),
        ("auto", ConflictMode::Auto, true, true),
    ] {
        let mut c = cfg();
        let out = parse_args_from(&mut c, &args(&[&format!("--file-conflicts={v}")]));
        assert!(matches!(out.end, ArgsEnd::Done));
        assert_eq!(c.conflict_mode, mode);
        assert_eq!(c.opt_warn_conflict, warn);
        assert_eq!(c.opt_fix_conflict, fix);
    }
    assert_eq!(parse_conflict_mode("bogus").unwrap_err(), "invalid file conflict mode 'bogus'");
    let mut c = cfg();
    let out = parse_args_from(&mut c, &args(&["--file-conflicts=never"]));
    assert!(matches!(out.end, ArgsEnd::Failed(m) if m == "invalid file conflict mode 'never'"));
}

#[test]
fn option_errors_end_the_reading() {
    let mut c = cfg();
    let out = parse_args_from(&mut c, &args(&["--deps", "x"]));
    assert!(matches!(out.end, ArgsEnd::Failed(m) if m == "'--deps' invalid. Use --deps=... instead"));
    let mut c = cfg();
    let out = parse_args_from(&mut c, &args(&["--missing-deps=maybe"]));
    assert!(matches!(out.end, ArgsEnd::Failed(m) if m == "invalid --missing-deps value 'maybe'"));
    let mut c = cfg();
    let out = parse_args_from(&mut c, &args(&["--bogus"]));
    assert!(matches!(out.end, ArgsEnd::InvalidOption(m) if m == "invalid option '--bogus'"));
    let mut c = cfg();
    let out = parse_args_from(&mut c, &args(&["-dx"]));
    assert!(matches!(out.end, ArgsEnd::InvalidOption(m) if m == "invalid option -- 'x'"));
    assert!(c.opt_deps);
    let mut c = cfg();
    assert!(matches!(parse_args_from(&mut c, &args(&["--help"])).end, ArgsEnd::Usage(0)));
    let mut c = cfg();
    assert!(matches!(parse_args_from(&mut c, &args(&["-h"])).end, ArgsEnd::Usage(0)));
    let mut c = cfg();
    assert!(matches!(parse_args_from(&mut c, &args(&["-Q"])).end, ArgsEnd::Exit(0)));
}

#[test]
fn double_dash_ends_options() {
    let mut c = cfg();
    let out = parse_args_from(&mut c, &args(&["-d", "--", "-weird.deb", "ignored"]));
    assert!(matches!(out.end, ArgsEnd::Done));
    assert!(c.opt_deps);
    assert_eq!(c.basepkg.as_deref(), Some("-weird.deb"));
    let mut c = cfg();
    parse_args_from(&mut c, &args(&["-", "x.deb"]));
    assert_eq!(c.basepkg.as_deref(), Some("-"));
}

#[test]
fn xdeb_options_in_install_mode() {
    let mut c = cfg();
    let out = apply_xdeb_options(&mut c, "-Sde");
    assert!(out.result.is_ok());
    assert_eq!(out.actions, vec![SetupAction::SyncShlibs]);
    assert!(c.opt_deps && c.opt_clean_dir);
    let mut c = cfg();
    let out = apply_xdeb_options(&mut c, "--mFLR-if");
    assert!(out.result.is_ok());
    assert!(out.actions.is_empty());
    assert!(!c.opt_warn_conflict && !c.strict_symlinks);
    assert_eq!(c.conflict_mode, ConflictMode::Ignore);
    assert_eq!(c.suffix, "-32bit");
    assert!(!c.opt_fix_conflict && c.opt_lazy_soname && !c.opt_register);
    let mut c = cfg();
    let out = apply_xdeb_options(&mut c, "-dq");
    assert_eq!(out.result.unwrap_err(), "install mode does not support xdeb option '-q'");
    assert!(c.opt_deps);
    let mut c = cfg();
    let out = apply_xdeb_options(&mut c, "-z");
    assert_eq!(out.result.unwrap_err(), "invalid xdeb option '-z'");
}

#[test]
fn install_arguments() {
    let parsed = parse_install_args(
        &args(&["--deps", "a b", "--not-deps=c", "-o", "-d", "--temp=/t", "-y", "--dry-run", "x.deb"]),
        "/tmp/xdeb".to_string(),
    );
    let Parsed::Run(o) = parsed else { panic!("expected options") };
    assert_eq!(o.source.as_deref(), Some("x.deb"));
    assert_eq!(o.xdeb_options, "-d");
    assert_eq!(o.temp, "/t");
    assert_eq!(o.dependencies, args(&["a", "b"]));
    assert_eq!(o.not_dependencies, args(&["c"]));
    assert!(o.yes && o.dry_run && !o.json);
    let Parsed::Run(d) = parse_install_args(&[], "/tmp/xdeb".to_string()) else { panic!() };
    assert_eq!(d.xdeb_options, "-Sde");
    assert_eq!(d.temp, "/tmp/xdeb");
    assert!(d.source.is_none());
    assert!(matches!(parse_install_args(&args(&["--file"]), String::new()), Parsed::Invalid(m) if m == "--file requires a value"));
    assert!(matches!(parse_install_args(&args(&["-x"]), String::new()), Parsed::Invalid(m) if m == "invalid install option '-x'"));
    assert!(matches!(parse_install_args(&args(&["-h", "-x"]), String::new()), Parsed::Help));
}

#[test]
fn install_sources() {
    assert_eq!(check_install_source(None).unwrap_err(), "no package provided to install");
    assert_eq!(
        check_install_source(Some("notes.txt".into())).unwrap_err(),
        "file 'notes.txt' is not a valid DEB package"
    );
    assert_eq!(check_install_source(Some("a.deb".into())).unwrap(), ("a.deb".to_string(), false));
    assert_eq!(
        check_install_source(Some("https://h/x?y".into())).unwrap(),
        ("https://h/x?y".to_string(), true)
    );
    assert_eq!(install_package_name("https://host/dl/zoom_amd64.deb"), "zoom_amd64");
    assert_eq!(install_package_name("/"), "package");
    let (w, d) = install_paths("/home/u", "tmp/../xdeb", "foo");
    assert_eq!(w, "/home/u/xdeb/foo");
    assert_eq!(d, "/home/u/xdeb/foo/foo.deb");
}

#[test]
fn install_configuration() {
    let Parsed::Run(o) = parse_install_args(
        &args(&["--options=-dm", "--deps=z", "--json", "--missing-deps=error", "p.deb"]),
        "/tmp".to_string(),
    ) else {
        panic!()
    };
    let mut c = Config::for_pkgroot("/", "/tmp/p");
    c.opt_install = true;
    let out = configure_install(&mut c, "/tmp/p/p.deb".to_string(), o);
    assert!(out.result.is_ok());
    assert!(out.actions.is_empty());
    assert_eq!(c.basepkg.as_deref(), Some("/tmp/p/p.deb"));
    assert_eq!(c.dependencies, args(&["z"]));
    assert!(c.json && c.missing_deps_error && c.opt_deps && !c.opt_install);
    assert_eq!(c.suffix, "-32bit");

    let mut o2 = InstallOptions::defaults("/tmp".to_string());
    o2.xdeb_options = "-I".to_string();
    let mut c2 = Config::for_pkgroot("/", "/tmp/q");
    let out2 = configure_install(&mut c2, "/tmp/q/q.deb".to_string(), o2);
    assert_eq!(out2.result.unwrap_err(), "install mode does not support xdeb option '-I'");
}

#[test]
fn least_xbps_package_is_picked() {
    let names = args(&["b-1_1.noarch.xbps", "x86_64-repodata", "a-2_1.noarch.xbps", ".xbps"]);
    let pick = select_xbps_package(&names).unwrap();
    assert_eq!(pick, "a-2_1.noarch.xbps");
    assert_eq!(installed_package_name(&pick), "a-2_1");
    assert!(select_xbps_package(&args(&["repodata"])).is_none());
    assert_eq!(install_prompt("a-2_1", "/w/binpkgs"), "Install a-2_1 from /w/binpkgs? [y/N] ");
}

#[test]
fn info_and_clean_arguments() {
    let Parsed::Run(o) = parse_info_args(&args(&["--explain-deps", "x.deb", "--json"])) else { panic!() };
    assert!(o.show_deps && o.explain_deps && o.json);
    assert_eq!(o.source, "x.deb");
    assert!(matches!(parse_info_args(&[]), Parsed::Invalid(m) if m == "no package provided to inspect"));
    assert!(matches!(parse_info_args(&args(&["--x"])), Parsed::Invalid(m) if m == "invalid info option '--x'"));
    assert!(matches!(parse_info_args(&args(&["--help"])), Parsed::Help));
    assert!(matches!(parse_clean_args(&[]), Parsed::Run(CleanScope::Work)));
    assert!(matches!(parse_clean_args(&args(&["-r", "-a"])), Parsed::Run(CleanScope::All)));
    assert!(matches!(parse_clean_args(&args(&["--repodata"])), Parsed::Run(CleanScope::Repodata)));
    assert!(matches!(parse_clean_args(&args(&["--x"])), Parsed::Invalid(m) if m == "invalid clean option '--x'"));
}

#[test]
fn subcommands() {
    assert_eq!(select_command(Some("install")), Subcommand::Install);
    assert_eq!(select_command(Some("file")), Subcommand::Install);
    assert_eq!(select_command(Some("convert")), Subcommand::Convert);
    assert_eq!(select_command(Some("info")), Subcommand::Info);
    assert_eq!(select_command(Some("clean")), Subcommand::Clean);
    assert_eq!(select_command(Some("doctor")), Subcommand::Doctor);
    assert_eq!(select_command(Some("-Sd")), Subcommand::Classic);
    assert_eq!(select_command(None), Subcommand::Classic);
}

#[test]
fn environment_settings() {
    let env = EnvSettings {
        pkgroot: Some("pkg".to_string()),
        workdir: None,
        destdir: Some("/d".to_string()),
        datadir: None,
        binpkgs: None,
        shlibs: None,
        opt_deps: Some("true".to_string()),
        opt_quit: None,
        opt_extract: Some("false".to_string()),
        opt_install: Some("yes".to_string()),
        opt_register: None,
        opt_clean_dir: None,
        opt_lazy_soname: None,
        opt_fix_conflict: None,
        opt_warn_conflict: None,
        dependencies: Some(" a  b ".to_string()),
        not_dependencies: None,
        conflicts: None,
        replaces: None,
        provides: None,
        post_extract: Some("s.sh".to_string()),
    };
    let c = Config::from_env_settings("/home/u", &env);
    assert_eq!(c.pkgroot, "/home/u/pkg");
    assert_eq!(c.workdir, "/home/u/pkg/workdir");
    assert_eq!(c.destdir, "/d");
    assert_eq!(c.shlibs, "/home/u/pkg/shlibs");
    assert!(c.opt_deps && !c.opt_extract && !c.opt_install && c.opt_register);
    assert_eq!(c.dependencies, args(&["a", "b"]));
    assert_eq!(c.post_extract.as_deref(), Some("s.sh"));
    assert_eq!(c.conflict_mode, ConflictMode::Error);
}

#[test]
fn classic_flags_still_work() {
    let mut c = cfg();
    let out = parse_args_from(&mut c, &args(&["-Sedf", "package.deb"]));
    assert!(matches!(out.end, ArgsEnd::Done));
    assert_eq!(out.actions, vec![SetupAction::SyncShlibs, SetupAction::WarnDeprecatedFix]);
    assert!(c.opt_clean_dir && c.opt_deps && c.opt_fix_conflict);
    assert_eq!(c.basepkg.as_deref(), Some("package.deb"));
}

#[test]
fn install_missing_deps_values() {
    let Parsed::Run(o) = parse_install_args(&args(&["--missing-deps=error"]), String::new()) else { panic!() };
    assert!(o.missing_deps_error);
    assert!(matches!(
        parse_install_args(&args(&["--missing-deps=loud"]), String::new()),
        Parsed::Invalid(m) if m == "invalid --missing-deps value 'loud'"
    ));
}

#[test]
fn install_flags_match_convert_flags() {
    let mut a = cfg();
    let mut b = cfg();
    let out_a = apply_xdeb_options(&mut a, "-SdemiFLR");
    let out_b = parse_args_from(&mut b, &args(&["-SdemiFLR"]));
    assert!(out_a.result.is_ok());
    assert!(matches!(out_b.end, ArgsEnd::Done));
    assert_eq!(out_a.actions, out_b.actions);
    assert_eq!(
        (a.opt_deps, a.opt_clean_dir, a.suffix.clone(), a.opt_fix_conflict, a.opt_lazy_soname, a.opt_register),
        (b.opt_deps, b.opt_clean_dir, b.suffix.clone(), b.opt_fix_conflict, b.opt_lazy_soname, b.opt_register)
    );
    assert_eq!(
        (a.opt_warn_conflict, a.conflict_mode, a.strict_symlinks),
        (b.opt_warn_conflict, b.conflict_mode, b.strict_symlinks)
    );
    assert!(!a.opt_warn_conflict);
    assert_eq!(a.conflict_mode, ConflictMode::Ignore);
}

#[test]
fn install_flag_f_does_nothing() {
    let mut c = cfg();
    let out = apply_xdeb_options(&mut c, "-f");
    assert!(out.result.is_ok());
    assert!(out.actions.is_empty());
    assert!(c.opt_fix_conflict && c.opt_warn_conflict);
}
