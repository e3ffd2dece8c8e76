//! The `install`, `info` and `clean` modes: their options, and how an
//! install is laid out.
use vstd::prelude::*;
use crate::args::{apply_xdeb_options, lead_dashes, xdeb_from, OptionsOutcome};
use crate::config::{
    join_path, normalize_path, spec_join_path, spec_normalize_path, with_basepkg, with_dependencies,
    with_dry_run, with_explain_deps, with_json, with_keep_workdir, with_missing_deps_error,
    with_not_dependencies, with_opt_install, Config, ConfigView,
};
use crate::order::{seq_lt, str_lt};
use crate::paths::{file_name, is_xbps_file_name, is_xbps_name, spec_file_name, spec_trim_extensions, trim_extensions};
use crate::text::{
    after, append, concat3, ends_with, extend_strings, has_prefix, is_lit, opt_view, owned,
    split_words, starts_with, str_ends_with, str_starts_with, to_chars, views, words,
};

verus! {

/// The options of the `install` mode.
#[derive(Debug)]
pub struct InstallOptions {
    pub source: Option<String>,
    pub xdeb_options: String,
    pub temp: String,
    pub dependencies: Vec<String>,
    pub not_dependencies: Vec<String>,
    pub dry_run: bool,
    pub explain_deps: bool,
    pub json: bool,
    pub keep_workdir: bool,
    pub yes: bool,
    pub missing_deps_error: bool,
}

pub struct InstallView {
    pub source: Option<Seq<char>>,
    pub xdeb_options: Seq<char>,
    pub temp: Seq<char>,
    pub dependencies: Seq<Seq<char>>,
    pub not_dependencies: Seq<Seq<char>>,
    pub dry_run: bool,
    pub explain_deps: bool,
    pub json: bool,
    pub keep_workdir: bool,
    pub yes: bool,
    pub missing_deps_error: bool,
}

impl View for InstallOptions {
    type V = InstallView;

    open spec fn view(&self) -> InstallView {
        InstallView {
            source: opt_view(self.source),
            xdeb_options: self.xdeb_options@,
            temp: self.temp@,
            dependencies: views(self.dependencies@),
            not_dependencies: views(self.not_dependencies@),
            dry_run: self.dry_run,
            explain_deps: self.explain_deps,
            json: self.json,
            keep_workdir: self.keep_workdir,
            yes: self.yes,
            missing_deps_error: self.missing_deps_error,
        }
    }
}

#[verifier::opaque]
pub open spec fn set_source(o: InstallView, v: Option<Seq<char>>) -> InstallView {
    InstallView { source: v, ..o }
}

#[verifier::opaque]
pub open spec fn set_xdeb_options(o: InstallView, v: Seq<char>) -> InstallView {
    InstallView { xdeb_options: v, ..o }
}

#[verifier::opaque]
pub open spec fn set_temp(o: InstallView, v: Seq<char>) -> InstallView {
    InstallView { temp: v, ..o }
}

#[verifier::opaque]
pub open spec fn set_dependencies(o: InstallView, v: Seq<Seq<char>>) -> InstallView {
    InstallView { dependencies: v, ..o }
}

#[verifier::opaque]
pub open spec fn set_not_dependencies(o: InstallView, v: Seq<Seq<char>>) -> InstallView {
    InstallView { not_dependencies: v, ..o }
}

#[verifier::opaque]
pub open spec fn set_dry_run(o: InstallView, v: bool) -> InstallView {
    InstallView { dry_run: v, ..o }
}

#[verifier::opaque]
pub open spec fn set_explain_deps(o: InstallView, v: bool) -> InstallView {
    InstallView { explain_deps: v, ..o }
}

#[verifier::opaque]
pub open spec fn set_json(o: InstallView, v: bool) -> InstallView {
    InstallView { json: v, ..o }
}

#[verifier::opaque]
pub open spec fn set_keep_workdir(o: InstallView, v: bool) -> InstallView {
    InstallView { keep_workdir: v, ..o }
}

#[verifier::opaque]
pub open spec fn set_yes(o: InstallView, v: bool) -> InstallView {
    InstallView { yes: v, ..o }
}

#[verifier::opaque]
pub open spec fn set_missing_deps_error(o: InstallView, v: bool) -> InstallView {
    InstallView { missing_deps_error: v, ..o }
}

/// `--file v` (or `-f v`) takes the next argument as the package to
/// install: reading it sets the source to `v` and goes on after `v`; when
/// nothing follows, the result is the options with that source, so the
/// package installed is `v`.
pub proof fn lemma_file_option_sets_source(o: InstallView, args: Seq<Seq<char>>, i: int)
    requires
        0 <= i,
        i + 1 < args.len(),
        args[i] == "--file"@ || args[i] == "-f"@,
    ensures
        install_from(o, args, i) == install_from(set_source(o, Some(args[i + 1])), args, i + 2),
        i + 2 == args.len() ==> (install_from(o, args, i) matches InstallParse::Run(r) && r.source
            == Some(args[i + 1]) && r.xdeb_options == o.xdeb_options && r.temp == o.temp),
{
    reveal_strlit("--file");
    reveal_strlit("-f");
    reveal_strlit("--help");
    reveal_strlit("-h");
    reveal_strlit("--dry-run");
    reveal_strlit("--explain-deps");
    reveal_strlit("--json");
    reveal_strlit("--keep-workdir");
    reveal_strlit("--yes");
    reveal_strlit("-y");
    reveal(set_source);
    let a = args[i];
    if a == "--file"@ {
        assert(a[2] != "--help"@[2]);
        assert(a[2] != "--json"@[2]);
    } else {
        assert(a[1] != "-h"@[1]);
        assert(a[1] != "-y"@[1]);
    }
    assert(a != "--help"@ && a != "-h"@ && a != "--dry-run"@ && a != "--explain-deps"@);
    assert(a != "--json"@ && a != "--keep-workdir"@ && a != "--yes"@ && a != "-y"@);
    assert(takes_value(a));
    assert(with_value(o, a, args[i + 1]) == set_source(o, Some(args[i + 1])));
}

impl InstallOptions {
    fn put_source(&mut self, v: Option<String>)
        ensures
            final(self)@ == set_source(old(self)@, opt_view(v)),
    {
        proof {
            reveal(set_source);
        }
        self.source = v;
    }

    fn put_xdeb_options(&mut self, v: String)
        ensures
            final(self)@ == set_xdeb_options(old(self)@, v@),
    {
        proof {
            reveal(set_xdeb_options);
        }
        self.xdeb_options = v;
    }

    fn put_temp(&mut self, v: String)
        ensures
            final(self)@ == set_temp(old(self)@, v@),
    {
        proof {
            reveal(set_temp);
        }
        self.temp = v;
    }

    fn put_dependencies(&mut self, v: Vec<String>)
        ensures
            final(self)@ == set_dependencies(old(self)@, views(v@)),
    {
        proof {
            reveal(set_dependencies);
        }
        self.dependencies = v;
    }

    fn put_not_dependencies(&mut self, v: Vec<String>)
        ensures
            final(self)@ == set_not_dependencies(old(self)@, views(v@)),
    {
        proof {
            reveal(set_not_dependencies);
        }
        self.not_dependencies = v;
    }

    fn put_dry_run(&mut self, v: bool)
        ensures
            final(self)@ == set_dry_run(old(self)@, v),
    {
        proof {
            reveal(set_dry_run);
        }
        self.dry_run = v;
    }

    fn put_explain_deps(&mut self, v: bool)
        ensures
            final(self)@ == set_explain_deps(old(self)@, v),
    {
        proof {
            reveal(set_explain_deps);
        }
        self.explain_deps = v;
    }

    fn put_json(&mut self, v: bool)
        ensures
            final(self)@ == set_json(old(self)@, v),
    {
        proof {
            reveal(set_json);
        }
        self.json = v;
    }

    fn put_keep_workdir(&mut self, v: bool)
        ensures
            final(self)@ == set_keep_workdir(old(self)@, v),
    {
        proof {
            reveal(set_keep_workdir);
        }
        self.keep_workdir = v;
    }

    fn put_yes(&mut self, v: bool)
        ensures
            final(self)@ == set_yes(old(self)@, v),
    {
        proof {
            reveal(set_yes);
        }
        self.yes = v;
    }

    fn put_missing_deps_error(&mut self, v: bool)
        ensures
            final(self)@ == set_missing_deps_error(old(self)@, v),
    {
        proof {
            reveal(set_missing_deps_error);
        }
        self.missing_deps_error = v;
    }

    fn extend_dependencies(&mut self, w: Vec<String>)
        ensures
            final(self)@ == set_dependencies(old(self)@, old(self)@.dependencies + views(w@)),
    {
        proof {
            reveal(set_dependencies);
        }
        extend_strings(&mut self.dependencies, w);
    }

    fn extend_not_dependencies(&mut self, w: Vec<String>)
        ensures
            final(self)@ == set_not_dependencies(old(self)@, old(self)@.not_dependencies + views(w@)),
    {
        proof {
            reveal(set_not_dependencies);
        }
        extend_strings(&mut self.not_dependencies, w);
    }
}

/// The result of reading the options of a mode.
pub enum Parsed<T> {
    /// Run with these settings.
    Run(T),
    /// Show the usage text and exit successfully.
    Help,
    /// Fail with this message.
    Invalid(String),
}

pub enum InstallParse {
    Run(InstallView),
    Help,
    Invalid(Seq<char>),
}

/// The options of the `install` mode before any argument is read.
pub open spec fn install_defaults(temp: Seq<char>) -> InstallView {
    InstallView {
        source: None,
        xdeb_options: "-Sde"@,
        temp: temp,
        dependencies: seq![],
        not_dependencies: seq![],
        dry_run: false,
        explain_deps: false,
        json: false,
        keep_workdir: false,
        yes: false,
        missing_deps_error: false,
    }
}

/// An option that takes the next argument as its value.
pub open spec fn takes_value(a: Seq<char>) -> bool {
    a == "--file"@ || a == "-f"@ || a == "--options"@ || a == "-o"@ || a == "--temp"@ || a
        == "-t"@ || a == "--deps"@ || a == "--not-deps"@
}

/// The options after one that takes the value `v`.
pub open spec fn with_value(o: InstallView, a: Seq<char>, v: Seq<char>) -> InstallView {
    if a == "--file"@ || a == "-f"@ {
        set_source(o, Some(v))
    } else if a == "--options"@ || a == "-o"@ {
        set_xdeb_options(o, v)
    } else if a == "--temp"@ || a == "-t"@ {
        set_temp(o, v)
    } else if a == "--deps"@ {
        set_dependencies(o, o.dependencies + words(v))
    } else {
        set_not_dependencies(o, o.not_dependencies + words(v))
    }
}

/// The reading of `args[i..]` in the `install` mode.
pub open spec fn install_from(o: InstallView, args: Seq<Seq<char>>, i: int) -> InstallParse
    decreases args.len() - i,
{
    if i < 0 || i >= args.len() {
        InstallParse::Run(o)
    } else {
        let a = args[i];
        if a == "--help"@ || a == "-h"@ {
            InstallParse::Help
        } else if a == "--dry-run"@ {
            install_from(set_dry_run(o, true), args, i + 1)
        } else if a == "--explain-deps"@ {
            install_from(set_explain_deps(o, true), args, i + 1)
        } else if a == "--json"@ {
            install_from(set_json(o, true), args, i + 1)
        } else if a == "--keep-workdir"@ {
            install_from(set_keep_workdir(o, true), args, i + 1)
        } else if a == "--yes"@ || a == "-y"@ {
            install_from(set_yes(o, true), args, i + 1)
        } else if takes_value(a) {
            if i + 1 < args.len() {
                install_from(with_value(o, a, args[i + 1]), args, i + 2)
            } else {
                InstallParse::Invalid(a + " requires a value"@)
            }
        } else if starts_with(a, "--file="@) {
            install_from(set_source(o, Some(a.skip("--file="@.len() as int))), args, i + 1)
        } else if starts_with(a, "--options="@) {
            install_from(set_xdeb_options(o, a.skip("--options="@.len() as int)), args, i + 1)
        } else if starts_with(a, "--temp="@) {
            install_from(set_temp(o, a.skip("--temp="@.len() as int)), args, i + 1)
        } else if starts_with(a, "--deps="@) {
            install_from(
                set_dependencies(o, o.dependencies + words(a.skip("--deps="@.len() as int))),
                args,
                i + 1,
            )
        } else if starts_with(a, "--not-deps="@) {
            install_from(
                set_not_dependencies(
                    o,
                    o.not_dependencies + words(a.skip("--not-deps="@.len() as int)),
                ),
                args,
                i + 1,
            )
        } else if starts_with(a, "--missing-deps="@) {
            let v = a.skip("--missing-deps="@.len() as int);
            if v == "warn"@ {
                install_from(set_missing_deps_error(o, false), args, i + 1)
            } else if v == "error"@ {
                install_from(set_missing_deps_error(o, true), args, i + 1)
            } else {
                InstallParse::Invalid("invalid --missing-deps value '"@ + v + "'"@)
            }
        } else if a.len() > 0 && a[0] == '-' {
            InstallParse::Invalid("invalid install option '"@ + a + "'"@)
        } else {
            install_from(set_source(o, Some(a)), args, i + 1)
        }
    }
}

impl InstallOptions {
    /// The options before any argument is read.
    pub fn defaults(temp: String) -> (r: InstallOptions)
        ensures
            r@ == install_defaults(temp@),
    {
        let r = InstallOptions {
            source: None,
            xdeb_options: owned("-Sde"),
            temp,
            dependencies: Vec::new(),
            not_dependencies: Vec::new(),
            dry_run: false,
            explain_deps: false,
            json: false,
            keep_workdir: false,
            yes: false,
            missing_deps_error: false,
        };
        assert(views(r.dependencies@) =~= Seq::<Seq<char>>::empty());
        assert(views(r.not_dependencies@) =~= Seq::<Seq<char>>::empty());
        r
    }

    fn take_value(&mut self, a: &[char], v: &String)
        requires
            takes_value(a@),
        ensures
            final(self)@ == with_value(old(self)@, a@, v@),
    {
        if is_lit(a, "--file") || is_lit(a, "-f") {
            self.put_source(Some(v.clone()));
        } else if is_lit(a, "--options") || is_lit(a, "-o") {
            self.put_xdeb_options(v.clone());
        } else if is_lit(a, "--temp") || is_lit(a, "-t") {
            self.put_temp(v.clone());
        } else if is_lit(a, "--deps") {
            self.extend_dependencies(split_words(v.as_str()));
        } else {
            self.extend_not_dependencies(split_words(v.as_str()));
        }
    }
}

fn words_after(a: &[char], lit: &str) -> (r: Vec<String>)
    requires
        starts_with(a@, lit@),
    ensures
        views(r@) == words(a@.skip(lit@.len() as int)),
{
    let rest = after(a, lit);
    split_words(rest.as_str())
}

/// Reads the options of the `install` mode; `default_temp` is the root for
/// temporary work directories unless `--temp` names another.
pub fn parse_install_args(args: &[String], default_temp: String) -> (r: Parsed<InstallOptions>)
    ensures
        match r {
            Parsed::Run(o) => install_from(install_defaults(default_temp@), views(args@), 0)
                == InstallParse::Run(o@),
            Parsed::Help => install_from(install_defaults(default_temp@), views(args@), 0)
                == InstallParse::Help,
            Parsed::Invalid(e) => install_from(install_defaults(default_temp@), views(args@), 0)
                == InstallParse::Invalid(e@),
        },
{
    let ghost av = views(args@);
    let ghost goal = install_from(install_defaults(default_temp@), av, 0);
    let mut opts = InstallOptions::defaults(default_temp);
    let mut i: usize = 0;
    while i < args.len()
        invariant
            0 <= i <= args@.len(),
            av == views(args@),
            goal == install_from(install_defaults(default_temp@), views(args@), 0),
            install_from(opts@, av, i as int) == goal,
        decreases args.len() - i,
    {
        let arg = &args[i];
        assert(av[i as int] == arg@);
        let a = to_chars(arg.as_str());
        let ghost o0 = opts@;
        if is_lit(&a, "--help") || is_lit(&a, "-h") {
            return Parsed::Help;
        } else if is_lit(&a, "--dry-run") {
            opts.put_dry_run(true);
        } else if is_lit(&a, "--explain-deps") {
            opts.put_explain_deps(true);
        } else if is_lit(&a, "--json") {
            opts.put_json(true);
        } else if is_lit(&a, "--keep-workdir") {
            opts.put_keep_workdir(true);
        } else if is_lit(&a, "--yes") || is_lit(&a, "-y") {
            opts.put_yes(true);
        } else if is_lit(&a, "--file") || is_lit(&a, "-f") || is_lit(&a, "--options") || is_lit(
            &a,
            "-o",
        ) || is_lit(&a, "--temp") || is_lit(&a, "-t") || is_lit(&a, "--deps") || is_lit(
            &a,
            "--not-deps",
        ) {
            if i + 1 < args.len() {
                assert(av[i + 1] == args@[i + 1]@);
                opts.take_value(&a, &args[i + 1]);
                assert(install_from(o0, av, i as int) == install_from(opts@, av, i + 2));
                i += 2;
                continue;
            } else {
                let mut m = owned(arg.as_str());
                crate::text::append(&mut m, " requires a value");
                return Parsed::Invalid(m);
            }
        } else if has_prefix(&a, "--file=") {
            opts.put_source(Some(after(&a, "--file=")));
        } else if has_prefix(&a, "--options=") {
            opts.put_xdeb_options(after(&a, "--options="));
        } else if has_prefix(&a, "--temp=") {
            opts.put_temp(after(&a, "--temp="));
        } else if has_prefix(&a, "--deps=") {
            opts.extend_dependencies(words_after(&a, "--deps="));
        } else if has_prefix(&a, "--not-deps=") {
            opts.extend_not_dependencies(words_after(&a, "--not-deps="));
        } else if has_prefix(&a, "--missing-deps=") {
            let v = after(&a, "--missing-deps=");
            let vc = to_chars(v.as_str());
            if is_lit(&vc, "warn") {
                opts.put_missing_deps_error(false);
            } else if is_lit(&vc, "error") {
                opts.put_missing_deps_error(true);
            } else {
                return Parsed::Invalid(concat3("invalid --missing-deps value '", v.as_str(), "'"));
            }
        } else if a.len() > 0 && a[0] == '-' {
            return Parsed::Invalid(concat3("invalid install option '", arg.as_str(), "'"));
        } else {
            opts.put_source(Some(arg.clone()));
        }
        assert(install_from(o0, av, i as int) == install_from(opts@, av, i + 1));
        i += 1;
    }
    Parsed::Run(opts)
}


/// The package to install, whether it is a URL, or why it cannot be used:
/// a source must be given, and one that is not an `http://` or `https://`
/// URL must end in `.deb`.
pub open spec fn spec_install_source(source: Option<Seq<char>>) -> Result<(Seq<char>, bool), Seq<char>> {
    match source {
        None => Err("no package provided to install"@),
        Some(s) => {
            let is_url = starts_with(s, "http://"@) || starts_with(s, "https://"@);
            if !is_url && !ends_with(s, ".deb"@) {
                Err("file '"@ + s + "' is not a valid DEB package"@)
            } else {
                Ok((s, is_url))
            }
        },
    }
}

pub fn check_install_source(source: Option<String>) -> (r: Result<(String, bool), String>)
    ensures
        match r {
            Ok((s, u)) => spec_install_source(opt_view(source)) == Ok::<(Seq<char>, bool), Seq<char>>((s@, u)),
            Err(e) => spec_install_source(opt_view(source)) == Err::<(Seq<char>, bool), Seq<char>>(e@),
        },
{
    match source {
        None => Err(owned("no package provided to install")),
        Some(s) => {
            let is_url = str_starts_with(s.as_str(), "http://") || str_starts_with(s.as_str(), "https://");
            if !is_url && !str_ends_with(s.as_str(), ".deb") {
                Err(concat3("file '", s.as_str(), "' is not a valid DEB package"))
            } else {
                Ok((s, is_url))
            }
        },
    }
}

/// The name of the package being installed: the source's file name (or
/// `package.deb`) without its last extension.
pub open spec fn spec_install_package_name(source: Seq<char>) -> Seq<char> {
    let n = match spec_file_name(source) {
        Some(f) => f,
        None => "package.deb"@,
    };
    spec_trim_extensions(n, 1)
}

pub fn install_package_name(source: &str) -> (r: String)
    ensures
        r@ == spec_install_package_name(source@),
{
    let n = match file_name(source) {
        Some(f) => f,
        None => owned("package.deb"),
    };
    trim_extensions(n.as_str(), 1)
}

/// The work directory of an install, `temp/name` made absolute against
/// `cwd`, and the path the package is copied to there, `name.deb`.
pub fn install_paths(cwd: &str, temp: &str, package_name: &str) -> (r: (String, String))
    ensures
        r.0@ == spec_normalize_path(cwd@, spec_join_path(temp@, package_name@)),
        r.1@ == spec_join_path(r.0@, package_name@ + ".deb"@),
{
    let joined = join_path(temp, package_name);
    let workdir = normalize_path(cwd, joined.as_str());
    let mut deb = owned(package_name);
    append(&mut deb, ".deb");
    let deb_path = join_path(workdir.as_str(), deb.as_str());
    (workdir, deb_path)
}

/// The settings that the `install` mode's options give a conversion.
pub open spec fn install_settings(m: ConfigView, o: InstallView, deb: Seq<char>) -> ConfigView {
    let m1 = with_not_dependencies(
        with_dependencies(with_basepkg(m, Some(deb)), o.dependencies),
        o.not_dependencies,
    );
    with_missing_deps_error(
        with_keep_workdir(
            with_json(with_explain_deps(with_dry_run(m1, o.dry_run), o.explain_deps), o.json),
            o.keep_workdir,
        ),
        o.missing_deps_error,
    )
}

/// Sets up the conversion of an install: the package at `deb_path`, the
/// install options, then the conversion flags of `--options`; the package is
/// never installed by the conversion itself.
pub fn configure_install(cfg: &mut Config, deb_path: String, opts: InstallOptions) -> (r: OptionsOutcome)
    ensures
        ({
            let m = install_settings(old(cfg)@, opts@, deb_path@);
            let (s2, e) = xdeb_from((m, seq![]), opts.xdeb_options@, lead_dashes(opts.xdeb_options@) as int);
            &&& r.actions@ == s2.1
            &&& match r.result {
                Ok(()) => e is None && final(cfg)@ == with_opt_install(s2.0, false),
                Err(msg) => e == Some(msg@) && final(cfg)@ == s2.0,
            }
        }),
{
    let ghost ov = opts@;
    cfg.set_basepkg(Some(deb_path));
    cfg.set_dependencies(opts.dependencies);
    cfg.set_not_dependencies(opts.not_dependencies);
    cfg.set_dry_run(opts.dry_run);
    cfg.set_explain_deps(opts.explain_deps);
    cfg.set_json(opts.json);
    cfg.set_keep_workdir(opts.keep_workdir);
    cfg.set_missing_deps_error(opts.missing_deps_error);
    let out = apply_xdeb_options(cfg, opts.xdeb_options.as_str());
    match out.result {
        Ok(()) => {
            cfg.set_opt_install(false);
        },
        Err(_) => {},
    }
    out
}

/// The package that an install picks among the files of the package
/// directory: the least `.xbps` name.
pub open spec fn is_least_xbps(names: Seq<Seq<char>>, n: Seq<char>) -> bool {
    &&& names.contains(n)
    &&& is_xbps_name(n)
    &&& forall|i: int| 0 <= i < names.len() && is_xbps_name(#[trigger] names[i]) ==> !seq_lt(names[i], n)
}

/// Picks the least `.xbps` file name.
pub fn select_xbps_package(names: &Vec<String>) -> (r: Option<String>)
    ensures
        match r {
            Some(n) => is_least_xbps(views(names@), n@),
            None => forall|i: int| 0 <= i < names@.len() ==> !is_xbps_name(#[trigger] views(names@)[i]),
        },
{
    let ghost nv = views(names@);
    let mut best: Option<usize> = None;
    let mut i: usize = 0;
    while i < names.len()
        invariant
            0 <= i <= names@.len(),
            nv == views(names@),
            match best {
                Some(b) => {
                    &&& b < i
                    &&& is_xbps_name(nv[b as int])
                    &&& forall|j: int| 0 <= j < i && is_xbps_name(#[trigger] nv[j]) ==> !seq_lt(nv[j], nv[b as int])
                },
                None => forall|j: int| 0 <= j < i ==> !is_xbps_name(#[trigger] nv[j]),
            },
        decreases names.len() - i,
    {
        assert(nv[i as int] == names@[i as int]@);
        if is_xbps_file_name(names[i].as_str()) {
            match best {
                None => {
                    proof {
                        crate::order::lemma_lt_irreflexive(nv[i as int]);
                    }
                    best = Some(i);
                },
                Some(b) => {
                    assert(nv[b as int] == names@[b as int]@);
                    if str_lt(names[i].as_str(), names[b].as_str()) {
                        proof {
                            assert forall|j: int| 0 <= j <= i && is_xbps_name(#[trigger] nv[j]) implies !seq_lt(nv[j], nv[i as int]) by {
                                if j < i && seq_lt(nv[j], nv[i as int]) {
                                    crate::order::lemma_lt_transitive(nv[j], nv[i as int], nv[b as int]);
                                }
                                if j == i {
                                    crate::order::lemma_lt_irreflexive(nv[i as int]);
                                }
                            }
                        }
                        best = Some(i);
                    } else {
                    }
                },
            }
        }
        i += 1;
    }
    match best {
        Some(b) => {
            assert(nv[b as int] == names@[b as int]@);
            assert(nv.contains(nv[b as int]));
            Some(names[b].clone())
        },
        None => None,
    }
}

/// The package name given to `xbps-install`: the file name without its
/// last two extensions.
pub fn installed_package_name(file: &str) -> (r: String)
    ensures
        r@ == spec_trim_extensions(file@, 2),
{
    trim_extensions(file, 2)
}

/// The question asked before installing.
pub fn install_prompt(package_name: &str, binpkgs: &str) -> (r: String)
    ensures
        r@ == "Install "@ + package_name@ + " from "@ + binpkgs@ + "? [y/N] "@,
{
    let mut r = concat3("Install ", package_name, " from ");
    append(&mut r, binpkgs);
    append(&mut r, "? [y/N] ");
    r
}

/// The options of the `info` mode.
pub struct InfoOptions {
    pub show_deps: bool,
    pub explain_deps: bool,
    pub json: bool,
    pub source: String,
}

/// The result of reading the `info` mode's arguments.
pub enum InfoParse {
    Run(bool, bool, bool, Seq<char>),
    Help,
    Invalid(Seq<char>),
}

/// The reading of `args[i..]` in the `info` mode, with the settings so far.
pub open spec fn info_from(
    show: bool,
    explain: bool,
    json: bool,
    source: Option<Seq<char>>,
    args: Seq<Seq<char>>,
    i: int,
) -> InfoParse
    decreases args.len() - i,
{
    if i < 0 || i >= args.len() {
        match source {
            Some(s) => InfoParse::Run(show, explain, json, s),
            None => InfoParse::Invalid("no package provided to inspect"@),
        }
    } else {
        let a = args[i];
        if a == "--help"@ || a == "-h"@ {
            InfoParse::Help
        } else if a == "--deps"@ {
            info_from(true, explain, json, source, args, i + 1)
        } else if a == "--json"@ {
            info_from(show, explain, true, source, args, i + 1)
        } else if a == "--explain-deps"@ {
            info_from(true, true, json, source, args, i + 1)
        } else if a.len() > 0 && a[0] == '-' {
            InfoParse::Invalid("invalid info option '"@ + a + "'"@)
        } else {
            info_from(show, explain, json, Some(a), args, i + 1)
        }
    }
}

/// Reads the arguments of the `info` mode.
pub fn parse_info_args(args: &[String]) -> (r: Parsed<InfoOptions>)
    ensures
        match r {
            Parsed::Run(o) => info_from(false, false, false, None, views(args@), 0) == InfoParse::Run(
                o.show_deps,
                o.explain_deps,
                o.json,
                o.source@,
            ),
            Parsed::Help => info_from(false, false, false, None, views(args@), 0) == InfoParse::Help,
            Parsed::Invalid(e) => info_from(false, false, false, None, views(args@), 0)
                == InfoParse::Invalid(e@),
        },
{
    let ghost av = views(args@);
    let ghost goal = info_from(false, false, false, None, av, 0);
    let mut show = false;
    let mut explain = false;
    let mut json = false;
    let mut source: Option<String> = None;
    let mut i: usize = 0;
    while i < args.len()
        invariant
            0 <= i <= args@.len(),
            av == views(args@),
            goal == info_from(false, false, false, None, av, 0),
            info_from(show, explain, json, opt_view(source), av, i as int) == goal,
        decreases args.len() - i,
    {
        let arg = &args[i];
        assert(av[i as int] == arg@);
        let a = to_chars(arg.as_str());
        if is_lit(&a, "--help") || is_lit(&a, "-h") {
            return Parsed::Help;
        } else if is_lit(&a, "--deps") {
            show = true;
        } else if is_lit(&a, "--json") {
            json = true;
        } else if is_lit(&a, "--explain-deps") {
            show = true;
            explain = true;
        } else if a.len() > 0 && a[0] == '-' {
            return Parsed::Invalid(concat3("invalid info option '", arg.as_str(), "'"));
        } else {
            source = Some(arg.clone());
        }
        i += 1;
    }
    match source {
        Some(s) => Parsed::Run(InfoOptions { show_deps: show, explain_deps: explain, json, source: s }),
        None => Parsed::Invalid(owned("no package provided to inspect")),
    }
}

/// What the `clean` mode removes.
#[derive(Clone, Copy, Debug, PartialEq, Eq, Structural)]
pub enum CleanScope {
    /// The work, data and destination directories.
    Work,
    /// Everything the tool created.
    All,
    /// The repository data.
    Repodata,
}

pub enum CleanParse {
    Run(CleanScope),
    Help,
    Invalid(Seq<char>),
}

/// The reading of `args[i..]` in the `clean` mode.
pub open spec fn clean_from(all: bool, repo: bool, args: Seq<Seq<char>>, i: int) -> CleanParse
    decreases args.len() - i,
{
    if i < 0 || i >= args.len() {
        CleanParse::Run(
            if all {
                CleanScope::All
            } else if repo {
                CleanScope::Repodata
            } else {
                CleanScope::Work
            },
        )
    } else {
        let a = args[i];
        if a == "--help"@ || a == "-h"@ {
            CleanParse::Help
        } else if a == "--all"@ || a == "-a"@ {
            clean_from(true, repo, args, i + 1)
        } else if a == "--repo"@ || a == "--repodata"@ || a == "-r"@ {
            clean_from(all, true, args, i + 1)
        } else {
            CleanParse::Invalid("invalid clean option '"@ + a + "'"@)
        }
    }
}

/// Reads the arguments of the `clean` mode.
pub fn parse_clean_args(args: &[String]) -> (r: Parsed<CleanScope>)
    ensures
        match r {
            Parsed::Run(s) => clean_from(false, false, views(args@), 0) == CleanParse::Run(s),
            Parsed::Help => clean_from(false, false, views(args@), 0) == CleanParse::Help,
            Parsed::Invalid(e) => clean_from(false, false, views(args@), 0) == CleanParse::Invalid(e@),
        },
{
    let ghost av = views(args@);
    let ghost goal = clean_from(false, false, av, 0);
    let mut all = false;
    let mut repo = false;
    let mut i: usize = 0;
    while i < args.len()
        invariant
            0 <= i <= args@.len(),
            av == views(args@),
            goal == clean_from(false, false, av, 0),
            clean_from(all, repo, av, i as int) == goal,
        decreases args.len() - i,
    {
        let arg = &args[i];
        assert(av[i as int] == arg@);
        let a = to_chars(arg.as_str());
        if is_lit(&a, "--help") || is_lit(&a, "-h") {
            return Parsed::Help;
        } else if is_lit(&a, "--all") || is_lit(&a, "-a") {
            all = true;
        } else if is_lit(&a, "--repo") || is_lit(&a, "--repodata") || is_lit(&a, "-r") {
            repo = true;
        } else {
            return Parsed::Invalid(concat3("invalid clean option '", arg.as_str(), "'"));
        }
        i += 1;
    }
    if all {
        Parsed::Run(CleanScope::All)
    } else if repo {
        Parsed::Run(CleanScope::Repodata)
    } else {
        Parsed::Run(CleanScope::Work)
    }
}

} // verus!
