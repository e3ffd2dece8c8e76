//! Building the package: the checks of the destination tree against the
//! running system, the arguments of the XBPS tools, and what follows the
//! build.
use vstd::prelude::*;
use crate::args::with_conflict_mode_of;
use crate::config::{
    has_default_settings, with_conflict_mode, with_opt_fix_conflict, with_opt_warn_conflict,
    with_refused, Config, ConfigView, ConflictMode,
};
use crate::metadata::PackageMeta;
use crate::render::{package_id, spec_package_id};
use crate::system::{pair_views, LogLevel};
use crate::text::{append, concat3, starts_with, join, join_strings, lines, owned, split_lines, views};

verus! {

/// What is known of one path of the destination tree and of the same path
/// on the running system.
pub struct TreeEntry {
    pub is_dir: bool,
    /// A directory without entries.
    pub is_empty_dir: bool,
    pub is_symlink: bool,
    pub system_exists: bool,
    pub system_is_dir: bool,
    pub system_is_symlink: bool,
    /// The installed version of the package already owns the system path.
    pub owned_by_package: bool,
    /// The path as it is shown to the user.
    pub shown: String,
}

/// What to do with a path of the destination tree.
pub enum EntryAction {
    /// Remove the empty directory.
    RemoveEmptyDir,
    /// Nothing to do.
    Skip,
    /// Report a conflict with this message.
    Conflict(String),
}

pub enum EntryDecision {
    RemoveEmptyDir,
    Skip,
    Conflict(Seq<char>),
}

/// The decision for one path: empty directories go when `-e` is given;
/// otherwise, when conflicts are checked, a path that exists on the system,
/// is not the package's own and is not a directory on both sides conflicts.
pub open spec fn spec_entry_action(clean_dir: bool, warn_conflict: bool, e: TreeEntry) -> EntryDecision {
    if clean_dir && e.is_dir && e.is_empty_dir {
        EntryDecision::RemoveEmptyDir
    } else if !warn_conflict {
        EntryDecision::Skip
    } else if !e.system_exists || e.owned_by_package {
        EntryDecision::Skip
    } else if e.system_is_dir && e.is_dir && !e.system_is_symlink && !e.is_symlink {
        EntryDecision::Skip
    } else if e.is_dir && e.is_empty_dir {
        EntryDecision::Conflict("Conflict: '"@ + e.shown@ + "'. Use '-e' to remove automatically."@)
    } else {
        EntryDecision::Conflict("Conflict: '"@ + e.shown@ + "'"@)
    }
}

pub fn tree_entry_action(clean_dir: bool, warn_conflict: bool, e: &TreeEntry) -> (r: EntryAction)
    ensures
        match (r, spec_entry_action(clean_dir, warn_conflict, *e)) {
            (EntryAction::RemoveEmptyDir, EntryDecision::RemoveEmptyDir) => true,
            (EntryAction::Skip, EntryDecision::Skip) => true,
            (EntryAction::Conflict(m), EntryDecision::Conflict(d)) => m@ == d,
            _ => false,
        },
{
    if clean_dir && e.is_dir && e.is_empty_dir {
        EntryAction::RemoveEmptyDir
    } else if !warn_conflict {
        EntryAction::Skip
    } else if !e.system_exists || e.owned_by_package {
        EntryAction::Skip
    } else if e.system_is_dir && e.is_dir && !e.system_is_symlink && !e.is_symlink {
        EntryAction::Skip
    } else if e.is_dir && e.is_empty_dir {
        EntryAction::Conflict(
            concat3("Conflict: '", e.shown.as_str(), "'. Use '-e' to remove automatically."),
        )
    } else {
        EntryAction::Conflict(concat3("Conflict: '", e.shown.as_str(), "'"))
    }
}

/// When conflicts are checked, a path of the package conflicts exactly when
/// it exists on the system, the installed package does not own it, and it is
/// not a plain directory on both sides (a symlink on either side, or a file
/// on either side, conflicts); an empty directory that `-e` removes is
/// removed instead. Without the check nothing conflicts. A conflict names
/// the path as it is shown.
pub proof fn lemma_conflicts_reported(clean_dir: bool, warn_conflict: bool, e: TreeEntry)
    ensures
        ({
            let d = spec_entry_action(clean_dir, warn_conflict, e);
            let removed = clean_dir && e.is_dir && e.is_empty_dir;
            let plain_dirs = e.is_dir && e.system_is_dir && !e.is_symlink && !e.system_is_symlink;
            &&& (d is Conflict) <==> (warn_conflict && !removed && e.system_exists
                && !e.owned_by_package && !plain_dirs)
            &&& (d is RemoveEmptyDir) <==> removed
            &&& d matches EntryDecision::Conflict(msg) ==> starts_with(msg, "Conflict: '"@ + e.shown@ + "'"@)
        }),
{
    let d = spec_entry_action(clean_dir, warn_conflict, e);
    match d {
        EntryDecision::Conflict(msg) => {
            let p = "Conflict: '"@ + e.shown@ + "'"@;
            if e.is_dir && e.is_empty_dir {
                reveal_strlit("'. Use '-e' to remove automatically.");
                reveal_strlit("'");
                assert(msg.take(p.len() as int) =~= p);
            } else {
                assert(msg.take(p.len() as int) =~= p);
            }
        },
        _ => {},
    }
}

/// `a` comes before `b` when the tree is checked: deeper paths first, and
/// paths of the same depth in their given order.
pub open spec fn checked_before(depths: Seq<usize>, a: int, b: int) -> bool {
    depths[a] > depths[b] || (depths[a] == depths[b] && a < b)
}

/// The order in which the paths of the tree are checked: the positions of
/// the paths, deepest first, paths of equal depth in their given order.
pub fn deepest_first(depths: &Vec<usize>) -> (r: Vec<usize>)
    ensures
        r@.len() == depths@.len(),
        forall|i: int| 0 <= i < r@.len() ==> #[trigger] r@[i] < depths@.len(),
        forall|i: int, j: int|
            0 <= i < j < r@.len() ==> checked_before(depths@, #[trigger] r@[i] as int, #[trigger] r@[j] as int),
{
    let mut out: Vec<usize> = Vec::new();
    let mut k: usize = 0;
    while k < depths.len()
        invariant
            0 <= k <= depths@.len(),
            out@.len() == k,
            forall|i: int| 0 <= i < out@.len() ==> #[trigger] out@[i] < k,
            forall|i: int, j: int|
                0 <= i < j < out@.len() ==> checked_before(depths@, #[trigger] out@[i] as int, #[trigger] out@[j] as int),
        decreases depths.len() - k,
    {
        let dk = depths[k];
        let mut p: usize = 0;
        while p < out.len() && depths[out[p]] >= dk
            invariant
                0 <= p <= out@.len(),
                out@.len() == k,
                k < depths@.len(),
                dk == depths@[k as int],
                forall|i: int| 0 <= i < out@.len() ==> #[trigger] out@[i] < k,
                forall|i: int| 0 <= i < p ==> depths@[#[trigger] out@[i] as int] >= dk,
            decreases out.len() - p,
        {
            p += 1;
        }
        let ghost before = out@;
        proof {
            assert forall|j: int| p <= j < before.len() implies depths@[#[trigger] before[j] as int] < dk by {
                assert(depths@[before[p as int] as int] < dk);
                if j > p {
                    assert(checked_before(depths@, before[p as int] as int, before[j] as int));
                }
            }
        }
        out.insert(p, k);
        assert(out@ == before.insert(p as int, k));
        assert forall|i: int, j: int|
            0 <= i < j < out@.len() implies checked_before(depths@, #[trigger] out@[i] as int, #[trigger] out@[j] as int) by {
            if j < p {
                assert(out@[i] == before[i] && out@[j] == before[j]);
            } else if j == p {
                assert(out@[i] == before[i]);
            } else if i == p {
                assert(out@[j] == before[j - 1]);
            } else if i < p {
                assert(out@[i] == before[i] && out@[j] == before[j - 1]);
            } else {
                assert(out@[i] == before[i - 1] && out@[j] == before[j - 1]);
            }
        }
        assert forall|i: int| 0 <= i < out@.len() implies #[trigger] out@[i] < k + 1 by {
            if i < p {
                assert(out@[i] == before[i]);
            } else if i > p {
                assert(out@[i] == before[i - 1]);
            }
        }
        k += 1;
    }
    out
}

/// How a conflict is logged in each mode: a warning, an error, or not at all.
pub open spec fn spec_conflict_level(mode: ConflictMode) -> Option<LogLevel> {
    match mode {
        ConflictMode::Warn => Some(LogLevel::Warn),
        ConflictMode::Error | ConflictMode::Auto => Some(LogLevel::Crit),
        ConflictMode::Ignore => None,
    }
}

pub fn conflict_level(mode: ConflictMode) -> (r: Option<LogLevel>)
    ensures
        r == spec_conflict_level(mode),
{
    match mode {
        ConflictMode::Warn => Some(LogLevel::Warn),
        ConflictMode::Error | ConflictMode::Auto => Some(LogLevel::Crit),
        ConflictMode::Ignore => None,
    }
}

/// Whether a tree with conflicts refuses the package in this mode.
pub open spec fn refuses_conflicts(mode: ConflictMode) -> bool {
    mode == ConflictMode::Error || mode == ConflictMode::Auto
}

/// Records the outcome of the tree check: with a conflict, the modes that
/// refuse conflicts mark the package refused and give the error to log.
pub fn finish_tree_check(cfg: &mut Config, conflict: bool) -> (r: Option<String>)
    ensures
        conflict && refuses_conflicts(old(cfg)@.conflict_mode) ==> {
            &&& final(cfg)@ == with_refused(old(cfg)@, true)
            &&& r matches Some(m) && m@ == "Consider (re)moving file(s) from '"@ + old(cfg)@.destdir
                + "' and run `xdeb -rb`"@
        },
        !(conflict && refuses_conflicts(old(cfg)@.conflict_mode)) ==> final(cfg)@ == old(cfg)@
            && r is None,
{
    let refuses = match cfg.conflict_mode {
        ConflictMode::Error | ConflictMode::Auto => true,
        _ => false,
    };
    if conflict && refuses {
        let m = concat3("Consider (re)moving file(s) from '", cfg.destdir.as_str(), "' and run `xdeb -rb`");
        cfg.set_refused(true);
        Some(m)
    } else {
        None
    }
}

/// The arguments given to `xbps-create`, after the program's name.
pub open spec fn spec_create_args(m: ConfigView, meta: PackageMeta, build_options: Seq<char>) -> Seq<
    Seq<char>,
> {
    seq![
        "-q"@,
        "-t"@,
        "xdeb"@,
        "-A"@,
        meta.arch@,
        "-n"@,
        spec_package_id(meta),
        "-m"@,
        meta.maintainer@,
        "-s"@,
        meta.short_desc@,
        "-S"@,
        meta.long_desc@,
        "-l"@,
        meta.license@,
        "-D"@,
        join(m.dependencies, " "@),
        "-C"@,
        join(m.conflicts, " "@),
        "-R"@,
        join(m.replaces, " "@),
        "-P"@,
        join(m.provides, " "@),
        "--build-options"@,
        build_options,
        m.destdir,
    ]
}

pub fn xbps_create_args(cfg: &Config, meta: &PackageMeta, build_options: &str) -> (r: Vec<String>)
    ensures
        views(r@) == spec_create_args(cfg@, *meta, build_options@),
{
    let mut v: Vec<String> = Vec::new();
    v.push(owned("-q"));
    v.push(owned("-t"));
    v.push(owned("xdeb"));
    v.push(owned("-A"));
    v.push(meta.arch.clone());
    v.push(owned("-n"));
    v.push(package_id(meta));
    v.push(owned("-m"));
    v.push(meta.maintainer.clone());
    v.push(owned("-s"));
    v.push(meta.short_desc.clone());
    v.push(owned("-S"));
    v.push(meta.long_desc.clone());
    v.push(owned("-l"));
    v.push(meta.license.clone());
    v.push(owned("-D"));
    v.push(join_strings(&cfg.dependencies, " "));
    v.push(owned("-C"));
    v.push(join_strings(&cfg.conflicts, " "));
    v.push(owned("-R"));
    v.push(join_strings(&cfg.replaces, " "));
    v.push(owned("-P"));
    v.push(join_strings(&cfg.provides, " "));
    v.push(owned("--build-options"));
    v.push(owned(build_options));
    v.push(cfg.destdir.clone());
    assert(views(v@) =~= spec_create_args(cfg@, *meta, build_options@));
    v
}

/// The tools that a build needs: `xbps-create`, then `xbps-rindex` when the
/// package is registered and `xbps-install` when it is installed.
pub open spec fn spec_build_tools(m: ConfigView) -> Seq<(Seq<char>, Seq<char>)> {
    let a = seq![("xbps-create"@, "xbps"@)];
    let b = if m.opt_register {
        a.push(("xbps-rindex"@, "xbps"@))
    } else {
        a
    };
    if m.opt_install {
        b.push(("xbps-install"@, "xbps"@))
    } else {
        b
    }
}

pub fn build_tools(cfg: &Config) -> (r: Vec<(String, String)>)
    ensures
        pair_views(r@) == spec_build_tools(cfg@),
{
    let mut v: Vec<(String, String)> = Vec::new();
    v.push((owned("xbps-create"), owned("xbps")));
    let ghost a = pair_views(v@);
    assert(a =~= seq![("xbps-create"@, "xbps"@)]);
    if cfg.opt_register {
        v.push((owned("xbps-rindex"), owned("xbps")));
        assert(pair_views(v@) =~= a.push(("xbps-rindex"@, "xbps"@)));
    }
    let ghost b = pair_views(v@);
    if cfg.opt_install {
        v.push((owned("xbps-install"), owned("xbps")));
        assert(pair_views(v@) =~= b.push(("xbps-install"@, "xbps"@)));
    }
    v
}

/// What comes after the package is built.
pub enum BuildFinish {
    /// The package must not be installed: fail with this message.
    Refused(String),
    /// Install the package as root with `xbps-install -R binpkgs id`.
    Install,
    /// Tell the user how to install it.
    Hint(String),
}

pub open spec fn spec_install_hint(m: ConfigView, meta: PackageMeta) -> Seq<char> {
    "Install using `xbps-install -R "@ + m.binpkgs + " "@ + spec_package_id(meta) + "`"@
}

/// Decides what follows the build: a refused package fails, else it is
/// installed when asked, else the user is told how to install it.
pub fn build_finish(cfg: &Config, meta: &PackageMeta) -> (r: BuildFinish)
    ensures
        cfg.refused ==> (r matches BuildFinish::Refused(e) && e@
            == "Errors occurred. Do not install the package on this system!"@),
        !cfg.refused && cfg.opt_install ==> r is Install,
        !cfg.refused && !cfg.opt_install ==> (r matches BuildFinish::Hint(h) && h@
            == spec_install_hint(cfg@, *meta)),
{
    if cfg.refused {
        BuildFinish::Refused(owned("Errors occurred. Do not install the package on this system!"))
    } else if cfg.opt_install {
        BuildFinish::Install
    } else {
        let mut h = concat3("Install using `xbps-install -R ", cfg.binpkgs.as_str(), " ");
        append(&mut h, package_id(meta).as_str());
        append(&mut h, "`");
        BuildFinish::Hint(h)
    }
}

/// The privilege helper that `command -v sudo || command -v doas` printed:
/// its first line.
pub fn helper_from_output(output: &str) -> (r: Result<String, String>)
    ensures
        lines(output@).len() > 0 ==> (r matches Ok(h) && h@ == lines(output@)[0]),
        lines(output@).len() == 0 ==> (r matches Err(e) && e@ == "Neither sudo nor doas found"@),
{
    let ls = split_lines(output);
    if ls.len() > 0 {
        assert(views(ls@)[0] == ls@[0]@);
        Ok(ls[0].clone())
    } else {
        Err(owned("Neither sudo nor doas found"))
    }
}


/// The file-conflict modes that `--file-conflicts=` selects behave as
/// documented: `error` reports conflicts as errors and refuses the package,
/// `warn` reports them as warnings and builds it, `ignore` does not look for
/// them, and `auto` fixes known conflicts first, then reports the others as
/// errors and refuses the package.
pub proof fn lemma_file_conflict_modes(m: ConfigView, md: ConflictMode, clean_dir: bool, e: TreeEntry)
    ensures
        ({
            let m2 = with_conflict_mode_of(m, md);
            &&& md == ConflictMode::Error ==> {
                &&& m2.opt_warn_conflict && !m2.opt_fix_conflict
                &&& spec_conflict_level(m2.conflict_mode) == Some(LogLevel::Crit)
                &&& refuses_conflicts(m2.conflict_mode)
            }
            &&& md == ConflictMode::Warn ==> {
                &&& m2.opt_warn_conflict && !m2.opt_fix_conflict
                &&& spec_conflict_level(m2.conflict_mode) == Some(LogLevel::Warn)
                &&& !refuses_conflicts(m2.conflict_mode)
            }
            &&& md == ConflictMode::Ignore ==> {
                &&& !(spec_entry_action(clean_dir, m2.opt_warn_conflict, e) is Conflict)
                &&& !m2.opt_fix_conflict
                &&& spec_conflict_level(m2.conflict_mode) is None
                &&& !refuses_conflicts(m2.conflict_mode)
            }
            &&& md == ConflictMode::Auto ==> {
                &&& m2.opt_warn_conflict && m2.opt_fix_conflict
                &&& spec_conflict_level(m2.conflict_mode) == Some(LogLevel::Crit)
                &&& refuses_conflicts(m2.conflict_mode)
            }
        }),
{
    reveal(with_conflict_mode);
    reveal(with_opt_warn_conflict);
    reveal(with_opt_fix_conflict);
}

/// By default conflicts are looked for, reported as errors, and refuse the
/// package.
pub proof fn lemma_conflicts_refused_by_default(c: Config)
    requires
        has_default_settings(c),
    ensures
        c.opt_warn_conflict,
        spec_conflict_level(c.conflict_mode) == Some(LogLevel::Crit),
        refuses_conflicts(c.conflict_mode),
{
}

} // verus!
