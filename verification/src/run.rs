//! The course of a conversion: which stage comes next, given the settings,
//! and the messages that stages report. The stages themselves are carried
//! out by the caller, which stops at the first one that fails.
use vstd::prelude::*;
use crate::config::{Config, ConfigView};
use crate::text::{concat3, join, join_strings, owned, starts_with, str_eq, str_starts_with, views};

verus! {

/// The mode that the first argument selects.
#[derive(Clone, Copy, Debug, PartialEq, Eq, Structural)]
pub enum Subcommand {
    /// `install` or `file`.
    Install,
    Convert,
    Info,
    Clean,
    Doctor,
    /// Anything else: the classic command line, options then a package.
    Classic,
}

pub open spec fn spec_subcommand(first: Option<Seq<char>>) -> Subcommand {
    match first {
        Some(a) => if a == "install"@ || a == "file"@ {
            Subcommand::Install
        } else if a == "convert"@ {
            Subcommand::Convert
        } else if a == "info"@ {
            Subcommand::Info
        } else if a == "clean"@ {
            Subcommand::Clean
        } else if a == "doctor"@ {
            Subcommand::Doctor
        } else {
            Subcommand::Classic
        },
        None => Subcommand::Classic,
    }
}

/// Selects the mode from the first argument, if there is one.
pub fn select_command(first: Option<&str>) -> (r: Subcommand)
    ensures
        r == spec_subcommand(
            match first {
                Some(a) => Some(a@),
                None => None,
            },
        ),
{
    match first {
        Some(a) => if str_eq(a, "install") || str_eq(a, "file") {
            Subcommand::Install
        } else if str_eq(a, "convert") {
            Subcommand::Convert
        } else if str_eq(a, "info") {
            Subcommand::Info
        } else if str_eq(a, "clean") {
            Subcommand::Clean
        } else if str_eq(a, "doctor") {
            Subcommand::Doctor
        } else {
            Subcommand::Classic
        },
        None => Subcommand::Classic,
    }
}

/// A stage of a conversion, in the order they run.
#[derive(Clone, Copy, Debug, PartialEq, Eq, Structural)]
pub enum Stage {
    /// Before the first stage.
    Start,
    /// Check that the conversion tools are installed.
    CheckTools,
    /// Remove the work, data and destination directories left by an earlier
    /// run; skipped when building from the destination directory as it is.
    Clean,
    /// Create the package root and its directories.
    CreateDirs,
    /// Fail when dependencies are resolved and the shlibs list is missing.
    RequireShlibs,
    /// Warn when the shlibs list is stale.
    CheckShlibsAge,
    /// Extract the `.deb` archive.
    Extract,
    /// Stop before building.
    Quit,
    /// Read the package metadata.
    ReadMetadata,
    /// Move directories that conflict with Void's layout.
    FixConflicts,
    /// Run the post-extract script.
    PostExtract,
    /// Resolve the shared-library dependencies.
    ResolveDeps,
    /// Check, sort and report the dependencies.
    FinishDeps,
    /// Show how each library was resolved.
    ExplainDeps,
    /// Show the preview and stop.
    Preview,
    /// Check the destination tree against the system.
    CheckTree,
    /// Build, register and maybe install the package.
    Build,
    /// Nothing more to do.
    Done,
}

/// The position of a stage in the order of a conversion.
pub open spec fn stage_rank(s: Stage) -> nat {
    match s {
        Stage::Start => 0,
        Stage::CheckTools => 1,
        Stage::Clean => 2,
        Stage::CreateDirs => 3,
        Stage::RequireShlibs => 4,
        Stage::CheckShlibsAge => 5,
        Stage::Extract => 6,
        Stage::Quit => 7,
        Stage::ReadMetadata => 8,
        Stage::FixConflicts => 9,
        Stage::PostExtract => 10,
        Stage::ResolveDeps => 11,
        Stage::FinishDeps => 12,
        Stage::ExplainDeps => 13,
        Stage::Preview => 14,
        Stage::CheckTree => 15,
        Stage::Build => 16,
        Stage::Done => 17,
    }
}

/// The stage that follows `s` in the order of a conversion.
pub open spec fn following(s: Stage) -> Stage {
    match s {
        Stage::Start => Stage::CheckTools,
        Stage::CheckTools => Stage::Clean,
        Stage::Clean => Stage::CreateDirs,
        Stage::CreateDirs => Stage::RequireShlibs,
        Stage::RequireShlibs => Stage::CheckShlibsAge,
        Stage::CheckShlibsAge => Stage::Extract,
        Stage::Extract => Stage::Quit,
        Stage::Quit => Stage::ReadMetadata,
        Stage::ReadMetadata => Stage::FixConflicts,
        Stage::FixConflicts => Stage::PostExtract,
        Stage::PostExtract => Stage::ResolveDeps,
        Stage::ResolveDeps => Stage::FinishDeps,
        Stage::FinishDeps => Stage::ExplainDeps,
        Stage::ExplainDeps => Stage::Preview,
        Stage::Preview => Stage::CheckTree,
        Stage::CheckTree => Stage::Build,
        Stage::Build => Stage::Done,
        Stage::Done => Stage::Done,
    }
}

/// Whether the settings ask for a stage.
pub open spec fn applies(m: ConfigView, s: Stage) -> bool {
    match s {
        Stage::Start => false,
        Stage::CheckTools | Stage::CreateDirs | Stage::ReadMetadata | Stage::FinishDeps
        | Stage::Build | Stage::Done => true,
        Stage::RequireShlibs | Stage::CheckShlibsAge | Stage::ResolveDeps => m.opt_deps,
        Stage::Clean | Stage::Extract => m.opt_extract,
        Stage::Quit => m.opt_quit,
        Stage::FixConflicts => m.opt_fix_conflict,
        Stage::PostExtract => m.post_extract is Some,
        Stage::ExplainDeps => m.explain_deps,
        Stage::Preview => m.dry_run,
        Stage::CheckTree => m.opt_clean_dir || m.opt_warn_conflict,
    }
}

/// Whether a conversion ends after a stage.
pub open spec fn ends_after(s: Stage) -> bool {
    s == Stage::Quit || s == Stage::Preview || s == Stage::Build || s == Stage::Done
}

/// The first stage after `s` that the settings ask for.
pub open spec fn first_applying_after(m: ConfigView, s: Stage) -> Stage
    decreases 17 - stage_rank(s),
{
    if s == Stage::Done {
        Stage::Done
    } else {
        let n = following(s);
        if applies(m, n) {
            n
        } else {
            first_applying_after(m, n)
        }
    }
}

/// The stage after `s` succeeded: `Done` after a stage that ends the
/// conversion, else the next stage that the settings ask for.
pub open spec fn spec_next_stage(m: ConfigView, s: Stage) -> Stage {
    if ends_after(s) {
        Stage::Done
    } else {
        first_applying_after(m, s)
    }
}

proof fn lemma_first_applying_after(m: ConfigView, s: Stage)
    ensures
        ({
            let r = first_applying_after(m, s);
            &&& s != Stage::Done ==> stage_rank(r) > stage_rank(s) && applies(m, r)
            &&& forall|t: Stage|
                stage_rank(s) < #[trigger] stage_rank(t) < stage_rank(r) ==> !applies(m, t)
        }),
    decreases 17 - stage_rank(s),
{
    if s != Stage::Done {
        let n = following(s);
        assert(stage_rank(n) == stage_rank(s) + 1);
        if !applies(m, n) {
            lemma_first_applying_after(m, n);
            assert forall|t: Stage|
                stage_rank(s) < #[trigger] stage_rank(t) < stage_rank(first_applying_after(m, s)) implies !applies(m, t) by {
                if stage_rank(t) == stage_rank(n) {
                    assert(t == n);
                }
            }
        }
    }
}

/// A conversion skips no stage that the settings ask for: after a stage
/// that does not end it, the next stage is the first later one that the
/// settings ask for, and `Done` (always asked for) comes last.
pub proof fn lemma_next_stage_is_next_applying(m: ConfigView, s: Stage)
    requires
        !ends_after(s),
    ensures
        stage_rank(spec_next_stage(m, s)) > stage_rank(s),
        applies(m, spec_next_stage(m, s)),
        forall|t: Stage|
            stage_rank(s) < #[trigger] stage_rank(t) < stage_rank(spec_next_stage(m, s)) ==> !applies(m, t),
{
    lemma_first_applying_after(m, s);
}

/// A dry run stops at the preview: from any stage up to the preview, the
/// next stage is at most the preview, and after the preview comes `Done`, so
/// the tree check and the build are never reached.
pub proof fn lemma_dry_run_stops_at_preview(m: ConfigView, s: Stage)
    requires
        m.dry_run,
        stage_rank(s) <= stage_rank(Stage::Preview),
    ensures
        stage_rank(spec_next_stage(m, s)) <= stage_rank(Stage::Preview) || spec_next_stage(m, s)
            == Stage::Done,
        spec_next_stage(m, s) != Stage::CheckTree,
        spec_next_stage(m, s) != Stage::Build,
{
    if !ends_after(s) {
        lemma_next_stage_is_next_applying(m, s);
        assert(applies(m, Stage::Preview));
    }
}

/// With `-q` the conversion stops after extracting: from any stage up to
/// the quit, the next stage is at most the quit, and after it comes `Done`,
/// so neither the metadata nor the build is reached.
pub proof fn lemma_quit_stops_before_building(m: ConfigView, s: Stage)
    requires
        m.opt_quit,
        stage_rank(s) <= stage_rank(Stage::Quit),
    ensures
        stage_rank(spec_next_stage(m, s)) <= stage_rank(Stage::Quit) || spec_next_stage(m, s)
            == Stage::Done,
        spec_next_stage(m, s) != Stage::ReadMetadata,
        spec_next_stage(m, s) != Stage::Build,
{
    if !ends_after(s) {
        lemma_next_stage_is_next_applying(m, s);
        assert(applies(m, Stage::Quit));
    }
}

/// Building from the destination directory as it is (`-b`) never removes
/// it: no stage that follows another is the clean or the extraction.
pub proof fn lemma_build_from_destdir_keeps_tree(m: ConfigView, s: Stage)
    requires
        !m.opt_extract,
    ensures
        spec_next_stage(m, s) != Stage::Clean,
        spec_next_stage(m, s) != Stage::Extract,
{
    if !ends_after(s) {
        lemma_next_stage_is_next_applying(m, s);
    }
}

/// Each stage is carried out exactly when its setting asks for it: a
/// conversion never moves on to a stage whose setting is off, and never
/// moves past a stage whose setting is on (or that every conversion runs).
/// Resolution, the shlibs checks and the shlibs age warning follow `-d`;
/// clean and extraction follow extraction (off with `-b`); the quit follows
/// `-q`; the conflict fixes, the post-extract script, the explanations, the
/// preview and the tree check follow theirs; the tool check, the directories,
/// the metadata, finishing the dependencies and the build always run.
pub proof fn lemma_stages_follow_settings(m: ConfigView, s: Stage, t: Stage)
    requires
        !ends_after(s),
    ensures
        ({
            let n = spec_next_stage(m, s);
            let wanted = match t {
                Stage::RequireShlibs | Stage::CheckShlibsAge | Stage::ResolveDeps => m.opt_deps,
                Stage::Clean | Stage::Extract => m.opt_extract,
                Stage::Quit => m.opt_quit,
                Stage::FixConflicts => m.opt_fix_conflict,
                Stage::PostExtract => m.post_extract is Some,
                Stage::ExplainDeps => m.explain_deps,
                Stage::Preview => m.dry_run,
                Stage::CheckTree => m.opt_clean_dir || m.opt_warn_conflict,
                Stage::Start => false,
                _ => true,
            };
            &&& n == t ==> wanted
            &&& wanted && stage_rank(s) < stage_rank(t) ==> stage_rank(n) <= stage_rank(t)
        }),
{
    lemma_next_stage_is_next_applying(m, s);
}

/// With `-d`, a conversion that goes on past the conflict fixes resolves
/// the dependencies before it finishes them: from any stage before the
/// resolution, the next stage is at most the resolution.
pub proof fn lemma_deps_resolved_when_asked(m: ConfigView, s: Stage)
    requires
        m.opt_deps,
        !ends_after(s),
        stage_rank(s) < stage_rank(Stage::ResolveDeps),
    ensures
        stage_rank(spec_next_stage(m, s)) <= stage_rank(Stage::ResolveDeps),
        spec_next_stage(m, s) != Stage::FinishDeps,
        spec_next_stage(m, s) != Stage::Build,
{
    lemma_stages_follow_settings(m, s, Stage::ResolveDeps);
}

fn stage_applies(cfg: &Config, s: Stage) -> (r: bool)
    ensures
        r == applies(cfg@, s),
{
    match s {
        Stage::Start => false,
        Stage::CheckTools | Stage::CreateDirs | Stage::ReadMetadata | Stage::FinishDeps
        | Stage::Build | Stage::Done => true,
        Stage::RequireShlibs | Stage::CheckShlibsAge | Stage::ResolveDeps => cfg.opt_deps,
        Stage::Clean | Stage::Extract => cfg.opt_extract,
        Stage::Quit => cfg.opt_quit,
        Stage::FixConflicts => cfg.opt_fix_conflict,
        Stage::PostExtract => cfg.post_extract.is_some(),
        Stage::ExplainDeps => cfg.explain_deps,
        Stage::Preview => cfg.dry_run,
        Stage::CheckTree => cfg.opt_clean_dir || cfg.opt_warn_conflict,
    }
}

fn following_stage(s: Stage) -> (r: Stage)
    ensures
        r == following(s),
{
    match s {
        Stage::Start => Stage::CheckTools,
        Stage::CheckTools => Stage::Clean,
        Stage::Clean => Stage::CreateDirs,
        Stage::CreateDirs => Stage::RequireShlibs,
        Stage::RequireShlibs => Stage::CheckShlibsAge,
        Stage::CheckShlibsAge => Stage::Extract,
        Stage::Extract => Stage::Quit,
        Stage::Quit => Stage::ReadMetadata,
        Stage::ReadMetadata => Stage::FixConflicts,
        Stage::FixConflicts => Stage::PostExtract,
        Stage::PostExtract => Stage::ResolveDeps,
        Stage::ResolveDeps => Stage::FinishDeps,
        Stage::FinishDeps => Stage::ExplainDeps,
        Stage::ExplainDeps => Stage::Preview,
        Stage::Preview => Stage::CheckTree,
        Stage::CheckTree => Stage::Build,
        Stage::Build => Stage::Done,
        Stage::Done => Stage::Done,
    }
}

/// The stage to carry out after `s` succeeded.
pub fn next_stage(cfg: &Config, s: Stage) -> (r: Stage)
    ensures
        r == spec_next_stage(cfg@, s),
{
    if s == Stage::Quit || s == Stage::Preview || s == Stage::Build || s == Stage::Done {
        return Stage::Done;
    }
    let mut cur = s;
    loop
        invariant
            cur != Stage::Done,
            spec_next_stage(cfg@, s) == first_applying_after(cfg@, s),
            first_applying_after(cfg@, cur) == first_applying_after(cfg@, s),
        decreases 17 - stage_rank(cur),
    {
        let n = following_stage(cur);
        if stage_applies(cfg, n) {
            return n;
        }
        cur = n;
    }
}

/// The error when dependencies are to be resolved and the shlibs list is
/// not there.
pub fn require_shlibs(opt_deps: bool, shlibs_is_file: bool) -> (r: Result<(), String>)
    ensures
        (opt_deps && !shlibs_is_file) <==> r is Err,
        r matches Err(e) ==> e@ == "shlibs file not synced. Run xdeb with '-Sd' to fetch dependency file"@,
{
    if opt_deps && !shlibs_is_file {
        Err(owned("shlibs file not synced. Run xdeb with '-Sd' to fetch dependency file"))
    } else {
        Ok(())
    }
}

/// The directories a conversion creates, in order: the package root, the
/// package directory, then the data, destination and work directories.
pub fn created_dirs(cfg: &Config) -> (r: Vec<String>)
    ensures
        views(r@) == seq![cfg@.pkgroot, cfg@.binpkgs, cfg@.datadir, cfg@.destdir, cfg@.workdir],
{
    let mut v: Vec<String> = Vec::new();
    v.push(cfg.pkgroot.clone());
    v.push(cfg.binpkgs.clone());
    v.push(cfg.datadir.clone());
    v.push(cfg.destdir.clone());
    v.push(cfg.workdir.clone());
    assert(views(v@) =~= seq![cfg@.pkgroot, cfg@.binpkgs, cfg@.datadir, cfg@.destdir, cfg@.workdir]);
    v
}

/// The line that reports the resolved dependencies, when there are any.
pub fn dependency_summary(deps: &Vec<String>) -> (r: Option<String>)
    ensures
        deps@.len() == 0 ==> r is None,
        deps@.len() > 0 ==> (r matches Some(s) && s@ == "Resolved dependencies ("@ + join(
            views(deps@),
            " "@,
        ) + ")"@),
{
    if deps.len() == 0 {
        None
    } else {
        Some(concat3("Resolved dependencies (", join_strings(deps, " ").as_str(), ")"))
    }
}


/// The package to extract must be given and be a file.
pub fn check_basepkg(given: bool, is_file: bool) -> (r: Result<(), String>)
    ensures
        (given && is_file) <==> r is Ok,
        r matches Err(e) ==> e@ == "Last argument is not a .deb file or does not exist"@,
{
    if given && is_file {
        Ok(())
    } else {
        Err(owned("Last argument is not a .deb file or does not exist"))
    }
}

/// The first of `names` that starts with `prefix`, or the message that the
/// archive is missing.
pub fn first_with_prefix(names: &Vec<String>, prefix: &str) -> (r: Result<String, String>)
    ensures
        match r {
            Ok(n) => exists|i: int|
                0 <= i < names@.len() && (#[trigger] views(names@)[i]) == n@ && starts_with(n@, prefix@)
                    && forall|j: int| 0 <= j < i ==> !starts_with(#[trigger] views(names@)[j], prefix@),
            Err(e) => e@ == "Missing "@ + prefix@ + " archive"@ && forall|j: int|
                0 <= j < names@.len() ==> !starts_with(#[trigger] views(names@)[j], prefix@),
        },
{
    let ghost nv = views(names@);
    let mut k: usize = 0;
    while k < names.len()
        invariant
            0 <= k <= names@.len(),
            nv == views(names@),
            forall|j: int| 0 <= j < k ==> !starts_with(#[trigger] nv[j], prefix@),
        decreases names.len() - k,
    {
        assert(nv[k as int] == names@[k as int]@);
        if str_starts_with(names[k].as_str(), prefix) {
            return Ok(names[k].clone());
        }
        k += 1;
    }
    Err(concat3("Missing ", prefix, " archive"))
}

} // verus!
