//! The configuration that the environment variables give.
use vstd::prelude::*;
use crate::config::{
    join_path, normalize_path, spec_join_path, spec_normalize_path, Config,
};
use crate::text::{opt_view, split_words, str_eq, views, words};

verus! {

/// The values of the `XDEB_*` variables; `None` for one that is not set (or,
/// for a flag or a list, not valid Unicode).
pub struct EnvSettings {
    pub pkgroot: Option<String>,
    pub workdir: Option<String>,
    pub destdir: Option<String>,
    pub datadir: Option<String>,
    pub binpkgs: Option<String>,
    pub shlibs: Option<String>,
    pub opt_deps: Option<String>,
    pub opt_quit: Option<String>,
    pub opt_extract: Option<String>,
    pub opt_install: Option<String>,
    pub opt_register: Option<String>,
    pub opt_clean_dir: Option<String>,
    pub opt_lazy_soname: Option<String>,
    pub opt_fix_conflict: Option<String>,
    pub opt_warn_conflict: Option<String>,
    pub dependencies: Option<String>,
    pub not_dependencies: Option<String>,
    pub conflicts: Option<String>,
    pub replaces: Option<String>,
    pub provides: Option<String>,
    pub post_extract: Option<String>,
}

/// A flag variable: set to `true`, or the default when it is not set.
pub open spec fn env_flag(v: Option<Seq<char>>, default: bool) -> bool {
    match v {
        Some(s) => s == "true"@,
        None => default,
    }
}

/// A list variable: its words, or none when it is not set.
pub open spec fn env_words(v: Option<Seq<char>>) -> Seq<Seq<char>> {
    match v {
        Some(s) => words(s),
        None => seq![],
    }
}

/// A path variable, or the default, made absolute against `cwd`.
pub open spec fn env_path(cwd: Seq<char>, v: Option<Seq<char>>, default: Seq<char>) -> Seq<char> {
    spec_normalize_path(
        cwd,
        match v {
            Some(p) => p,
            None => default,
        },
    )
}

fn flag(v: &Option<String>, default: bool) -> (r: bool)
    ensures
        r == env_flag(opt_view(*v), default),
{
    match v {
        Some(s) => str_eq(s.as_str(), "true"),
        None => default,
    }
}

fn word_list(v: &Option<String>) -> (r: Vec<String>)
    ensures
        views(r@) == env_words(opt_view(*v)),
{
    match v {
        Some(s) => split_words(s.as_str()),
        None => {
            let r: Vec<String> = Vec::new();
            assert(views(r@) =~= Seq::<Seq<char>>::empty());
            r
        },
    }
}

fn path_or(cwd: &str, v: &Option<String>, default: &str) -> (r: String)
    ensures
        r@ == env_path(cwd@, opt_view(*v), default@),
{
    match v {
        Some(p) => normalize_path(cwd, p.as_str()),
        None => normalize_path(cwd, default),
    }
}

impl Config {
    /// The configuration of the classic and `convert` modes before the
    /// arguments are read: the package root is `XDEB_PKGROOT` or the working
    /// directory `cwd`, each directory its variable or its place under the
    /// root, and each flag and list its variable or its default.
    pub fn from_env_settings(cwd: &str, env: &EnvSettings) -> (r: Config)
        ensures
            r.pkgroot@ == env_path(cwd@, opt_view(env.pkgroot), cwd@),
            r.workdir@ == env_path(cwd@, opt_view(env.workdir), spec_join_path(r.pkgroot@, "workdir"@)),
            r.destdir@ == env_path(cwd@, opt_view(env.destdir), spec_join_path(r.pkgroot@, "destdir"@)),
            r.datadir@ == env_path(cwd@, opt_view(env.datadir), spec_join_path(r.pkgroot@, "datadir"@)),
            r.binpkgs@ == env_path(cwd@, opt_view(env.binpkgs), spec_join_path(r.pkgroot@, "binpkgs"@)),
            r.shlibs@ == env_path(cwd@, opt_view(env.shlibs), spec_join_path(r.pkgroot@, "shlibs"@)),
            r.opt_deps == env_flag(opt_view(env.opt_deps), false),
            r.opt_quit == env_flag(opt_view(env.opt_quit), false),
            r.opt_extract == env_flag(opt_view(env.opt_extract), true),
            r.opt_install == env_flag(opt_view(env.opt_install), false),
            r.opt_register == env_flag(opt_view(env.opt_register), true),
            r.opt_clean_dir == env_flag(opt_view(env.opt_clean_dir), false),
            r.opt_lazy_soname == env_flag(opt_view(env.opt_lazy_soname), false),
            r.opt_fix_conflict == env_flag(opt_view(env.opt_fix_conflict), true),
            r.opt_warn_conflict == env_flag(opt_view(env.opt_warn_conflict), true),
            views(r.dependencies@) == env_words(opt_view(env.dependencies)),
            views(r.not_dependencies@) == env_words(opt_view(env.not_dependencies)),
            views(r.conflicts@) == env_words(opt_view(env.conflicts)),
            views(r.replaces@) == env_words(opt_view(env.replaces)),
            views(r.provides@) == env_words(opt_view(env.provides)),
            opt_view(r.post_extract) == opt_view(env.post_extract),
            r.suffix@.len() == 0,
            r.arch is None,
            r.name is None,
            r.version is None,
            r.revision is None,
            r.basepkg is None,
            !r.refused,
            !r.dry_run,
            !r.explain_deps,
            r.dep_explanations@.len() == 0,
            !r.json,
            !r.keep_workdir,
            !r.missing_deps_error,
            r.conflict_mode == crate::config::ConflictMode::Error,
            r.strict_symlinks,
    {
        let pkgroot = path_or(cwd, &env.pkgroot, cwd);
        let workdir = path_or(cwd, &env.workdir, join_path(pkgroot.as_str(), "workdir").as_str());
        let destdir = path_or(cwd, &env.destdir, join_path(pkgroot.as_str(), "destdir").as_str());
        let datadir = path_or(cwd, &env.datadir, join_path(pkgroot.as_str(), "datadir").as_str());
        let binpkgs = path_or(cwd, &env.binpkgs, join_path(pkgroot.as_str(), "binpkgs").as_str());
        let shlibs = path_or(cwd, &env.shlibs, join_path(pkgroot.as_str(), "shlibs").as_str());
        let mut cfg = Config::with_paths(pkgroot, workdir, destdir, datadir, binpkgs, shlibs);
        cfg.opt_deps = flag(&env.opt_deps, false);
        cfg.opt_quit = flag(&env.opt_quit, false);
        cfg.opt_extract = flag(&env.opt_extract, true);
        cfg.opt_install = flag(&env.opt_install, false);
        cfg.opt_register = flag(&env.opt_register, true);
        cfg.opt_clean_dir = flag(&env.opt_clean_dir, false);
        cfg.opt_lazy_soname = flag(&env.opt_lazy_soname, false);
        cfg.opt_fix_conflict = flag(&env.opt_fix_conflict, true);
        cfg.opt_warn_conflict = flag(&env.opt_warn_conflict, true);
        cfg.dependencies = word_list(&env.dependencies);
        cfg.not_dependencies = word_list(&env.not_dependencies);
        cfg.conflicts = word_list(&env.conflicts);
        cfg.replaces = word_list(&env.replaces);
        cfg.provides = word_list(&env.provides);
        cfg.post_extract = match &env.post_extract {
            Some(p) => Some(p.clone()),
            None => None,
        };
        cfg
    }
}

} // verus!
