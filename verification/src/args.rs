//! Command-line options of the `convert` mode: what each option sets, and
//! the side actions (syncing, cleaning) that they ask for, in order.
use vstd::prelude::*;
use crate::config::{
    with_arch, with_basepkg, with_conflict_mode, with_conflicts, with_dependencies, with_dry_run,
    with_explain_deps, with_json, with_keep_workdir, with_missing_deps_error, with_name,
    with_not_dependencies, with_opt_clean_dir, with_opt_deps, with_opt_extract,
    with_opt_fix_conflict, with_opt_install, with_opt_lazy_soname, with_opt_quit, with_opt_register,
    with_opt_warn_conflict, with_post_extract, with_provides, with_replaces, with_revision,
    with_strict_symlinks, with_suffix, with_version, Config, ConfigView, ConflictMode,
};
use crate::text::{
    after, concat3, has_prefix, is_lit, opt_view, owned, split_words, starts_with,
    string_from, to_chars, views, words,
};

verus! {

/// A side action that an option asks for, run in the order given.
#[derive(Clone, Copy, Debug, PartialEq, Eq, Structural)]
pub enum SetupAction {
    /// Download the shlibs file.
    SyncShlibs,
    /// Remove the work, data and destination directories.
    Clean,
    /// Remove everything the tool created.
    CleanAll,
    /// Remove the repository data.
    CleanRepodata,
    /// Warn that `-f` is now the default.
    WarnDeprecatedFix,
}

/// How the reading of the options ended.
pub enum ArgsEnd {
    /// All options were read; the conversion may run.
    Done,
    /// Show the usage text and exit with this code.
    Usage(i32),
    /// Report this invalid option, then show the usage text and exit with 1.
    InvalidOption(String),
    /// Exit at once with this code.
    Exit(i32),
    /// Fail with this message.
    Failed(String),
}

pub enum EndView {
    Done,
    Usage(i32),
    InvalidOption(Seq<char>),
    Exit(i32),
    Failed(Seq<char>),
}

impl View for ArgsEnd {
    type V = EndView;

    open spec fn view(&self) -> EndView {
        match self {
            ArgsEnd::Done => EndView::Done,
            ArgsEnd::Usage(c) => EndView::Usage(*c),
            ArgsEnd::InvalidOption(m) => EndView::InvalidOption(m@),
            ArgsEnd::Exit(c) => EndView::Exit(*c),
            ArgsEnd::Failed(m) => EndView::Failed(m@),
        }
    }
}

/// The side actions to run, in order, and how the reading ended.
pub struct ArgsOutcome {
    pub actions: Vec<SetupAction>,
    pub end: ArgsEnd,
}

/// The settings and the side actions asked for so far.
pub type ArgsState = (ConfigView, Seq<SetupAction>);

/// What reading one argument leads to.
pub enum Step {
    Next,
    /// Stop reading options; the package is the argument after this one
    /// (`true`) or this one (`false`).
    Stop(bool),
    End(EndView),
}

pub open spec fn conflict_mode_of(v: Seq<char>) -> Option<ConflictMode> {
    if v == "warn"@ {
        Some(ConflictMode::Warn)
    } else if v == "error"@ {
        Some(ConflictMode::Error)
    } else if v == "ignore"@ {
        Some(ConflictMode::Ignore)
    } else if v == "auto"@ {
        Some(ConflictMode::Auto)
    } else {
        None
    }
}

/// One flag of a group such as `-Sd`.
pub open spec fn short_flag(st: ArgsState, c: char) -> (ArgsState, Option<EndView>) {
    let (m, acts) = st;
    if c == 'S' {
        ((m, acts.push(SetupAction::SyncShlibs)), None)
    } else if c == 'd' {
        ((with_opt_deps(m, true), acts), None)
    } else if c == 'h' {
        (st, Some(EndView::Usage(0)))
    } else if c == 'c' {
        ((m, acts.push(SetupAction::Clean)), None)
    } else if c == 'C' {
        ((m, acts.push(SetupAction::CleanAll)), None)
    } else if c == 'r' {
        ((m, acts.push(SetupAction::CleanRepodata)), None)
    } else if c == 'R' {
        ((with_opt_register(m, false), acts), None)
    } else if c == 'q' {
        ((with_opt_quit(m, true), acts), None)
    } else if c == 'Q' {
        (st, Some(EndView::Exit(0)))
    } else if c == 'b' {
        ((with_opt_extract(m, false), acts), None)
    } else if c == 'e' {
        ((with_opt_clean_dir(m, true), acts), None)
    } else if c == 'm' {
        ((with_suffix(m, "-32bit"@), acts), None)
    } else if c == 'i' {
        ((
            with_strict_symlinks(
                with_conflict_mode(with_opt_warn_conflict(m, false), ConflictMode::Ignore),
                false,
            ),
            acts,
        ), None)
    } else if c == 'f' {
        ((m, acts.push(SetupAction::WarnDeprecatedFix)), None)
    } else if c == 'F' {
        ((with_opt_fix_conflict(m, false), acts), None)
    } else if c == 'I' {
        ((with_opt_install(m, true), acts), None)
    } else if c == 'L' {
        ((with_opt_lazy_soname(m, true), acts), None)
    } else {
        (st, Some(EndView::InvalidOption("invalid option -- '"@ + seq![c] + "'"@)))
    }
}

/// The flags `cs[j..]` of a group, up to the first that ends the reading.
pub open spec fn shorts_from(st: ArgsState, cs: Seq<char>, j: int) -> (ArgsState, Option<EndView>)
    decreases cs.len() - j,
{
    if j < 0 || j >= cs.len() {
        (st, None)
    } else {
        let (s2, e) = short_flag(st, cs[j]);
        if e is Some {
            (s2, e)
        } else {
            shorts_from(s2, cs, j + 1)
        }
    }
}

/// One argument of the `convert` mode.
pub open spec fn arg_step(st: ArgsState, a: Seq<char>) -> (ArgsState, Step) {
    let (m, acts) = st;
    if a == "--deps"@ || a == "--arch"@ || a == "--name"@ || a == "--version"@ || a
        == "--not-deps"@ || a == "--revision"@ || a == "--rev"@ {
        (st, Step::End(EndView::Failed("'"@ + a + "' invalid. Use "@ + a + "=... instead"@)))
    } else if a == "--help"@ {
        (st, Step::End(EndView::Usage(0)))
    } else if a == "--dry-run"@ {
        ((with_dry_run(m, true), acts), Step::Next)
    } else if a == "--explain-deps"@ {
        ((with_explain_deps(m, true), acts), Step::Next)
    } else if a == "--json"@ {
        ((with_json(m, true), acts), Step::Next)
    } else if a == "--keep-workdir"@ {
        ((with_keep_workdir(m, true), acts), Step::Next)
    } else if a == "--"@ {
        (st, Step::Stop(true))
    } else if starts_with(a, "--deps="@) {
        let ws = words(a.skip("--deps="@.len() as int));
        ((with_dependencies(m, m.dependencies + ws), acts), Step::Next)
    } else if starts_with(a, "--conflicts="@) {
        let ws = words(a.skip("--conflicts="@.len() as int));
        ((with_conflicts(m, m.conflicts + ws), acts), Step::Next)
    } else if starts_with(a, "--replaces="@) {
        let ws = words(a.skip("--replaces="@.len() as int));
        ((with_replaces(m, m.replaces + ws), acts), Step::Next)
    } else if starts_with(a, "--provides="@) {
        let ws = words(a.skip("--provides="@.len() as int));
        ((with_provides(m, m.provides + ws), acts), Step::Next)
    } else if starts_with(a, "--arch="@) {
        ((with_arch(m, Some(a.skip("--arch="@.len() as int))), acts), Step::Next)
    } else if starts_with(a, "--name="@) {
        ((with_name(m, Some(a.skip("--name="@.len() as int))), acts), Step::Next)
    } else if starts_with(a, "--version="@) {
        ((with_version(m, Some(a.skip("--version="@.len() as int))), acts), Step::Next)
    } else if starts_with(a, "--revision="@) {
        ((with_revision(m, Some(a.skip("--revision="@.len() as int))), acts), Step::Next)
    } else if starts_with(a, "--rev="@) {
        ((with_revision(m, Some(a.skip("--rev="@.len() as int))), acts), Step::Next)
    } else if starts_with(a, "--not-deps="@) {
        let ws = words(a.skip("--not-deps="@.len() as int));
        ((with_not_dependencies(m, m.not_dependencies + ws), acts), Step::Next)
    } else if starts_with(a, "--missing-deps="@) {
        let v = a.skip("--missing-deps="@.len() as int);
        if v == "warn"@ {
            ((with_missing_deps_error(m, false), acts), Step::Next)
        } else if v == "error"@ {
            ((with_missing_deps_error(m, true), acts), Step::Next)
        } else {
            (st, Step::End(EndView::Failed("invalid --missing-deps value '"@ + v + "'"@)))
        }
    } else if starts_with(a, "--file-conflicts="@) {
        let v = a.skip("--file-conflicts="@.len() as int);
        match conflict_mode_of(v) {
            Some(md) => ((with_conflict_mode_of(m, md), acts), Step::Next),
            None => (st, Step::End(EndView::Failed("invalid file conflict mode '"@ + v + "'"@))),
        }
    } else if starts_with(a, "--post-extract="@) {
        ((with_post_extract(m, Some(a.skip("--post-extract="@.len() as int))), acts), Step::Next)
    } else if starts_with(a, "--"@) {
        (st, Step::End(EndView::InvalidOption("invalid option '"@ + a + "'"@)))
    } else if a.len() > 1 && a[0] == '-' {
        let (s2, e) = shorts_from(st, a, 1);
        match e {
            Some(e) => (s2, Step::End(e)),
            None => (s2, Step::Next),
        }
    } else {
        (st, Step::Stop(false))
    }
}

/// The settings that `--file-conflicts=` gives: the mode, warnings unless
/// conflicts are ignored, automatic fixes only in `auto` mode.
pub open spec fn with_conflict_mode_of(m: ConfigView, md: ConflictMode) -> ConfigView {
    with_opt_fix_conflict(
        with_opt_warn_conflict(with_conflict_mode(m, md), md != ConflictMode::Ignore),
        md == ConflictMode::Auto,
    )
}

/// The reading of `args[i..]`: the final state, the position of the package
/// argument if there is one, and how the reading ended.
pub open spec fn args_from(st: ArgsState, args: Seq<Seq<char>>, i: int) -> (
    ArgsState,
    Option<int>,
    EndView,
)
    decreases args.len() - i,
{
    if i < 0 || i >= args.len() {
        (st, None, EndView::Done)
    } else {
        let (s2, step) = arg_step(st, args[i]);
        match step {
            Step::Next => args_from(s2, args, i + 1),
            Step::Stop(consumed) => {
                let p = if consumed {
                    i + 1
                } else {
                    i
                };
                (s2, if p < args.len() {
                    Some(p)
                } else {
                    None
                }, EndView::Done)
            },
            Step::End(e) => (s2, None, e),
        }
    }
}

/// The settings after reading the options: the package argument, if any,
/// becomes the package to convert.
pub open spec fn parsed_settings(m: ConfigView, args: Seq<Seq<char>>) -> ConfigView {
    let (st, pos, end) = args_from((m, seq![]), args, 0);
    match pos {
        Some(p) => with_basepkg(st.0, Some(args[p])),
        None => st.0,
    }
}

/// `a` begins with `p`, as sequences of side actions.
pub open spec fn actions_extend(a: Seq<SetupAction>, p: Seq<SetupAction>) -> bool {
    p.len() <= a.len() && a.take(p.len() as int) == p
}

proof fn lemma_extend_trans(a: Seq<SetupAction>, b: Seq<SetupAction>, c: Seq<SetupAction>)
    requires
        actions_extend(b, a),
        actions_extend(c, b),
    ensures
        actions_extend(c, a),
{
    assert(c.take(a.len() as int) =~= c.take(b.len() as int).take(a.len() as int));
}

proof fn lemma_short_flag_extends(st: ArgsState, c: char)
    ensures
        actions_extend(short_flag(st, c).0.1, st.1),
{
    assert(st.1.push(SetupAction::SyncShlibs).take(st.1.len() as int) =~= st.1);
    assert(st.1.push(SetupAction::Clean).take(st.1.len() as int) =~= st.1);
    assert(st.1.push(SetupAction::CleanAll).take(st.1.len() as int) =~= st.1);
    assert(st.1.push(SetupAction::CleanRepodata).take(st.1.len() as int) =~= st.1);
    assert(st.1.push(SetupAction::WarnDeprecatedFix).take(st.1.len() as int) =~= st.1);
    assert(st.1.take(st.1.len() as int) =~= st.1);
}

proof fn lemma_shorts_from_extends(st: ArgsState, cs: Seq<char>, j: int)
    ensures
        actions_extend(shorts_from(st, cs, j).0.1, st.1),
    decreases cs.len() - j,
{
    if j < 0 || j >= cs.len() {
        assert(st.1.take(st.1.len() as int) =~= st.1);
    } else {
        let (s2, e) = short_flag(st, cs[j]);
        lemma_short_flag_extends(st, cs[j]);
        if e is None {
            lemma_shorts_from_extends(s2, cs, j + 1);
            lemma_extend_trans(st.1, s2.1, shorts_from(s2, cs, j + 1).0.1);
        }
    }
}

proof fn lemma_arg_step_extends(st: ArgsState, a: Seq<char>)
    ensures
        actions_extend(arg_step(st, a).0.1, st.1),
{
    assert(st.1.take(st.1.len() as int) =~= st.1);
    if a.len() > 1 && a[0] == '-' {
        lemma_shorts_from_extends(st, a, 1);
    }
}

proof fn lemma_args_from_extends(st: ArgsState, args: Seq<Seq<char>>, i: int)
    ensures
        actions_extend(args_from(st, args, i).0.1, st.1),
    decreases args.len() - i,
{
    assert(st.1.take(st.1.len() as int) =~= st.1);
    if 0 <= i < args.len() {
        let (s2, step) = arg_step(st, args[i]);
        lemma_arg_step_extends(st, args[i]);
        if step is Next {
            lemma_args_from_extends(s2, args, i + 1);
            lemma_extend_trans(st.1, s2.1, args_from(s2, args, i + 1).0.1);
        }
    }
}

/// The side actions that short flags ask for: an argument whose group of
/// short flags begins with `C` asks first for the full clean, `c` for the
/// plain clean, `r` for the repository data to go, and `S` for the shlibs
/// list to be fetched. Whatever follows, the actions read so far are kept
/// and this one comes right after them.
pub proof fn lemma_short_flag_actions(m: ConfigView, acts: Seq<SetupAction>, args: Seq<Seq<char>>, c: char)
    requires
        args.len() > 0,
        args[0].len() >= 2,
        args[0][0] == '-',
        args[0][1] == c,
        c == 'C' || c == 'c' || c == 'r' || c == 'S',
    ensures
        ({
            let out = args_from((m, acts), args, 0).0.1;
            let want = if c == 'C' {
                SetupAction::CleanAll
            } else if c == 'c' {
                SetupAction::Clean
            } else if c == 'r' {
                SetupAction::CleanRepodata
            } else {
                SetupAction::SyncShlibs
            };
            actions_extend(out, acts.push(want))
        }),
{
    let a = args[0];
    let st = (m, acts);
    reveal_strlit("--deps");
    reveal_strlit("--arch");
    reveal_strlit("--name");
    reveal_strlit("--version");
    reveal_strlit("--not-deps");
    reveal_strlit("--revision");
    reveal_strlit("--rev");
    reveal_strlit("--help");
    reveal_strlit("--dry-run");
    reveal_strlit("--explain-deps");
    reveal_strlit("--json");
    reveal_strlit("--keep-workdir");
    reveal_strlit("--");
    reveal_strlit("--deps=");
    reveal_strlit("--conflicts=");
    reveal_strlit("--replaces=");
    reveal_strlit("--provides=");
    reveal_strlit("--arch=");
    reveal_strlit("--name=");
    reveal_strlit("--version=");
    reveal_strlit("--revision=");
    reveal_strlit("--rev=");
    reveal_strlit("--not-deps=");
    reveal_strlit("--missing-deps=");
    reveal_strlit("--file-conflicts=");
    reveal_strlit("--post-extract=");
    assert(forall|p: Seq<char>| p.len() >= 2 && p[1] == '-' ==> !starts_with(a, p)) by {
        assert forall|p: Seq<char>| p.len() >= 2 && p[1] == '-' implies !starts_with(a, p) by {
            if starts_with(a, p) {
                assert(a.take(p.len() as int)[1] == p[1]);
            }
        }
    }
    assert(forall|p: Seq<char>| p.len() >= 2 && p[1] == '-' ==> a != p);
    let (s1, e1) = short_flag(st, c);
    let want = if c == 'C' {
        SetupAction::CleanAll
    } else if c == 'c' {
        SetupAction::Clean
    } else if c == 'r' {
        SetupAction::CleanRepodata
    } else {
        SetupAction::SyncShlibs
    };
    assert(s1.1 == acts.push(want));
    assert(e1 is None);
    lemma_shorts_from_extends(s1, a, 2);
    assert(shorts_from(st, a, 1) == shorts_from(s1, a, 2));
    let (s2, step) = arg_step(st, a);
    assert(s2 == shorts_from(s1, a, 2).0);
    assert(actions_extend(s2.1, acts.push(want)));
    if step is Next {
        lemma_args_from_extends(s2, args, 1);
        lemma_extend_trans(acts.push(want), s2.1, args_from(s2, args, 1).0.1);
    }
}

/// Reads the value of `--file-conflicts=`.
pub fn parse_conflict_mode(value: &str) -> (r: Result<ConflictMode, String>)
    ensures
        match r {
            Ok(md) => conflict_mode_of(value@) == Some(md),
            Err(e) => conflict_mode_of(value@) is None && e@ == "invalid file conflict mode '"@
                + value@ + "'"@,
        },
{
    let v = to_chars(value);
    if is_lit(&v, "warn") {
        Ok(ConflictMode::Warn)
    } else if is_lit(&v, "error") {
        Ok(ConflictMode::Error)
    } else if is_lit(&v, "ignore") {
        Ok(ConflictMode::Ignore)
    } else if is_lit(&v, "auto") {
        Ok(ConflictMode::Auto)
    } else {
        Err(concat3("invalid file conflict mode '", value, "'"))
    }
}

fn short_flag_exec(cfg: &mut Config, actions: &mut Vec<SetupAction>, c: char) -> (r: Option<
    ArgsEnd,
>)
    ensures
        ({
            let (s2, e) = short_flag((old(cfg)@, old(actions)@), c);
            &&& (final(cfg)@, final(actions)@) == s2
            &&& match r {
                Some(x) => e == Some(x@),
                None => e is None,
            }
        }),
{
    if c == 'S' {
        actions.push(SetupAction::SyncShlibs);
    } else if c == 'd' {
        cfg.set_opt_deps(true);
    } else if c == 'h' {
        return Some(ArgsEnd::Usage(0));
    } else if c == 'c' {
        actions.push(SetupAction::Clean);
    } else if c == 'C' {
        actions.push(SetupAction::CleanAll);
    } else if c == 'r' {
        actions.push(SetupAction::CleanRepodata);
    } else if c == 'R' {
        cfg.set_opt_register(false);
    } else if c == 'q' {
        cfg.set_opt_quit(true);
    } else if c == 'Q' {
        return Some(ArgsEnd::Exit(0));
    } else if c == 'b' {
        cfg.set_opt_extract(false);
    } else if c == 'e' {
        cfg.set_opt_clean_dir(true);
    } else if c == 'm' {
        cfg.set_suffix(owned("-32bit"));
    } else if c == 'i' {
        cfg.set_opt_warn_conflict(false);
        cfg.set_conflict_mode(ConflictMode::Ignore);
        cfg.set_strict_symlinks(false);
    } else if c == 'f' {
        actions.push(SetupAction::WarnDeprecatedFix);
    } else if c == 'F' {
        cfg.set_opt_fix_conflict(false);
    } else if c == 'I' {
        cfg.set_opt_install(true);
    } else if c == 'L' {
        cfg.set_opt_lazy_soname(true);
    } else {
        let mut one: Vec<char> = Vec::new();
        one.push(c);
        let cs = string_from(&one);
        assert(cs@ =~= seq![c]);
        return Some(ArgsEnd::InvalidOption(concat3("invalid option -- '", cs.as_str(), "'")));
    }
    None
}

fn words_after(a: &[char], lit: &str) -> (r: Vec<String>)
    requires
        starts_with(a@, lit@),
    ensures
        views(r@) == words(a@.skip(lit@.len() as int)),
{
    let rest = after(a, lit);
    split_words(rest.as_str())
}

/// Reads one argument; `None` means that reading goes on.
fn arg_step_exec(cfg: &mut Config, actions: &mut Vec<SetupAction>, arg: &str) -> (r: Option<
    (Option<bool>, ArgsEnd),
>)
    ensures
        ({
            let (s2, step) = arg_step((old(cfg)@, old(actions)@), arg@);
            &&& (final(cfg)@, final(actions)@) == s2
            &&& match r {
                None => step is Next,
                Some((Some(consumed), ArgsEnd::Done)) => step == Step::Stop(consumed),
                Some((None, e)) => step == Step::End(e@),
                _ => false,
            }
        }),
{
    let a = to_chars(arg);
    if is_lit(&a, "--deps") || is_lit(&a, "--arch") || is_lit(&a, "--name") || is_lit(
        &a,
        "--version",
    ) || is_lit(&a, "--not-deps") || is_lit(&a, "--revision") || is_lit(&a, "--rev") {
        let mut m = concat3("'", arg, "' invalid. Use ");
        crate::text::append(&mut m, arg);
        crate::text::append(&mut m, "=... instead");
        return Some((None, ArgsEnd::Failed(m)));
    } else if is_lit(&a, "--help") {
        return Some((None, ArgsEnd::Usage(0)));
    } else if is_lit(&a, "--dry-run") {
        cfg.set_dry_run(true);
    } else if is_lit(&a, "--explain-deps") {
        cfg.set_explain_deps(true);
    } else if is_lit(&a, "--json") {
        cfg.set_json(true);
    } else if is_lit(&a, "--keep-workdir") {
        cfg.set_keep_workdir(true);
    } else if is_lit(&a, "--") {
        return Some((Some(true), ArgsEnd::Done));
    } else if has_prefix(&a, "--deps=") {
        cfg.extend_dependencies(words_after(&a, "--deps="));
    } else if has_prefix(&a, "--conflicts=") {
        cfg.extend_conflicts(words_after(&a, "--conflicts="));
    } else if has_prefix(&a, "--replaces=") {
        cfg.extend_replaces(words_after(&a, "--replaces="));
    } else if has_prefix(&a, "--provides=") {
        cfg.extend_provides(words_after(&a, "--provides="));
    } else if has_prefix(&a, "--arch=") {
        cfg.set_arch(Some(after(&a, "--arch=")));
    } else if has_prefix(&a, "--name=") {
        cfg.set_name(Some(after(&a, "--name=")));
    } else if has_prefix(&a, "--version=") {
        cfg.set_version(Some(after(&a, "--version=")));
    } else if has_prefix(&a, "--revision=") {
        cfg.set_revision(Some(after(&a, "--revision=")));
    } else if has_prefix(&a, "--rev=") {
        cfg.set_revision(Some(after(&a, "--rev=")));
    } else if has_prefix(&a, "--not-deps=") {
        cfg.extend_not_dependencies(words_after(&a, "--not-deps="));
    } else if has_prefix(&a, "--missing-deps=") {
        let v = after(&a, "--missing-deps=");
        let vc = to_chars(v.as_str());
        if is_lit(&vc, "warn") {
            cfg.set_missing_deps_error(false);
        } else if is_lit(&vc, "error") {
            cfg.set_missing_deps_error(true);
        } else {
            return Some(
                (None, ArgsEnd::Failed(concat3("invalid --missing-deps value '", v.as_str(), "'"))),
            );
        }
    } else if has_prefix(&a, "--file-conflicts=") {
        let v = after(&a, "--file-conflicts=");
        match parse_conflict_mode(v.as_str()) {
            Ok(md) => {
                cfg.set_conflict_mode(md);
                cfg.set_opt_warn_conflict(md != ConflictMode::Ignore);
                cfg.set_opt_fix_conflict(md == ConflictMode::Auto);
            },
            Err(e) => {
                return Some((None, ArgsEnd::Failed(e)));
            },
        }
    } else if has_prefix(&a, "--post-extract=") {
        cfg.set_post_extract(Some(after(&a, "--post-extract=")));
    } else if has_prefix(&a, "--") {
        return Some((None, ArgsEnd::InvalidOption(concat3("invalid option '", arg, "'"))));
    } else if a.len() > 1 && a[0] == '-' {
        let ghost st0 = (cfg@, actions@);
        let ghost sh = shorts_from(st0, a@, 1);
        assert(arg_step(st0, arg@) == (sh.0, match sh.1 {
            Some(e) => Step::End(e),
            None => Step::Next,
        }));
        let mut j: usize = 1;
        while j < a.len()
            invariant
                1 <= j <= a@.len(),
                a@ == arg@,
                st0 == (old(cfg)@, old(actions)@),
                sh == shorts_from(st0, a@, 1),
                arg_step(st0, arg@) == (sh.0, match sh.1 {
                    Some(e) => Step::End(e),
                    None => Step::Next,
                }),
                shorts_from((cfg@, actions@), a@, j as int) == sh,
            decreases a.len() - j,
        {
            let ghost stj = (cfg@, actions@);
            let ghost c = a@[j as int];
            match short_flag_exec(cfg, actions, a[j]) {
                Some(e) => {
                    assert(shorts_from(stj, a@, j as int) == ((cfg@, actions@), Some(e@)));
                    return Some((None, e));
                },
                None => {
                    assert(shorts_from(stj, a@, j as int) == shorts_from(
                        (cfg@, actions@),
                        a@,
                        j + 1,
                    ));
                },
            }
            j += 1;
        }
    } else {
        return Some((Some(false), ArgsEnd::Done));
    }
    None
}

/// Reads the options of the `convert` mode into `cfg`; the first argument
/// that is not an option (or the one after `--`) is the package to convert.
pub fn parse_args_from(cfg: &mut Config, args: &[String]) -> (r: ArgsOutcome)
    ensures
        ({
            let (st, pos, end) = args_from((old(cfg)@, seq![]), views(args@), 0);
            &&& final(cfg)@ == parsed_settings(old(cfg)@, views(args@))
            &&& r.actions@ == st.1
            &&& r.end@ == end
        }),
{
    let ghost av = views(args@);
    let ghost init = (cfg@, Seq::<SetupAction>::empty());
    let mut actions: Vec<SetupAction> = Vec::new();
    let mut i: usize = 0;
    while i < args.len()
        invariant
            0 <= i <= args@.len(),
            av == views(args@),
            init == (old(cfg)@, Seq::<SetupAction>::empty()),
            args_from((cfg@, actions@), av, i as int) == args_from(init, av, 0),
        decreases args.len() - i,
    {
        assert(av[i as int] == args@[i as int]@);
        let ghost sti = (cfg@, actions@);
        let ghost step = arg_step(sti, av[i as int]);
        match arg_step_exec(cfg, &mut actions, args[i].as_str()) {
            None => {
                assert(args_from(sti, av, i as int) == args_from((cfg@, actions@), av, i + 1));
            },
            Some((Some(consumed), _)) => {
                assert(step.1 == Step::Stop(consumed));
                let p = if consumed {
                    i + 1
                } else {
                    i
                };
                let ghost st2 = (cfg@, actions@);
                assert(args_from(sti, av, i as int) == (st2, if p < args.len() {
                    Some(p as int)
                } else {
                    None::<int>
                }, EndView::Done));
                if p < args.len() {
                    cfg.set_basepkg(Some(args[p].clone()));
                    assert(av[p as int] == args@[p as int]@);
                }
                return ArgsOutcome { actions, end: ArgsEnd::Done };
            },
            Some((None, e)) => {
                assert(args_from(sti, av, i as int) == ((cfg@, actions@), None::<int>, e@));
                return ArgsOutcome { actions, end: e };
            },
        }
        i += 1;
    }
    ArgsOutcome { actions, end: ArgsEnd::Done }
}

/// The number of leading `-` characters.
pub open spec fn lead_dashes(s: Seq<char>) -> nat
    decreases s.len(),
{
    if s.len() > 0 && s[0] == '-' {
        1 + lead_dashes(s.drop_first())
    } else {
        0
    }
}

/// One conversion flag given to the `install` mode through `--options`.
pub open spec fn xdeb_flag(st: ArgsState, c: char) -> (ArgsState, Option<Seq<char>>) {
    let (m, acts) = st;
    if c == 'S' {
        ((m, acts.push(SetupAction::SyncShlibs)), None)
    } else if c == 'd' {
        ((with_opt_deps(m, true), acts), None)
    } else if c == 'e' {
        ((with_opt_clean_dir(m, true), acts), None)
    } else if c == 'm' {
        ((with_suffix(m, "-32bit"@), acts), None)
    } else if c == 'i' {
        ((
            with_strict_symlinks(
                with_conflict_mode(with_opt_warn_conflict(m, false), ConflictMode::Ignore),
                false,
            ),
            acts,
        ), None)
    } else if c == 'f' || c == '-' {
        (st, None)
    } else if c == 'F' {
        ((with_opt_fix_conflict(m, false), acts), None)
    } else if c == 'L' {
        ((with_opt_lazy_soname(m, true), acts), None)
    } else if c == 'R' {
        ((with_opt_register(m, false), acts), None)
    } else if c == 'q' || c == 'Q' || c == 'b' || c == 'c' || c == 'C' || c == 'r' || c == 'I'
        || c == 'h' {
        (st, Some("install mode does not support xdeb option '-"@ + seq![c] + "'"@))
    } else {
        (st, Some("invalid xdeb option '-"@ + seq![c] + "'"@))
    }
}

/// The flags `cs[j..]`, up to the first that is refused.
pub open spec fn xdeb_from(st: ArgsState, cs: Seq<char>, j: int) -> (ArgsState, Option<Seq<char>>)
    decreases cs.len() - j,
{
    if j < 0 || j >= cs.len() {
        (st, None)
    } else {
        let (s2, e) = xdeb_flag(st, cs[j]);
        if e is Some {
            (s2, e)
        } else {
            xdeb_from(s2, cs, j + 1)
        }
    }
}

/// The conversion flags that the `install` mode accepts through
/// `--options` (`S`, `d`, `e`, `m`, `i`, `F`, `L` and `R`) act there exactly
/// as they do on the command line of a conversion; `-f` is accepted there and
/// does nothing.
pub proof fn lemma_install_flags_act_as_convert_flags(st: ArgsState, c: char)
    requires
        c == 'S' || c == 'd' || c == 'e' || c == 'm' || c == 'i' || c == 'F' || c == 'L' || c
            == 'R',
    ensures
        short_flag(st, c).1 is None,
        xdeb_flag(st, c).1 is None,
        xdeb_flag(st, c).0 == short_flag(st, c).0,
        xdeb_flag(st, 'f') == (st, None::<Seq<char>>),
{
}

/// The side actions to run, in order, and whether the flags were accepted.
pub struct OptionsOutcome {
    pub actions: Vec<SetupAction>,
    pub result: Result<(), String>,
}

fn char_string(c: char) -> (r: String)
    ensures
        r@ == seq![c],
{
    let mut one: Vec<char> = Vec::new();
    one.push(c);
    let r = string_from(&one);
    assert(r@ =~= seq![c]);
    r
}

fn xdeb_flag_exec(cfg: &mut Config, actions: &mut Vec<SetupAction>, c: char) -> (r: Option<
    String,
>)
    ensures
        ({
            let (s2, e) = xdeb_flag((old(cfg)@, old(actions)@), c);
            &&& (final(cfg)@, final(actions)@) == s2
            &&& opt_view(r) == e
        }),
{
    if c == 'S' {
        actions.push(SetupAction::SyncShlibs);
    } else if c == 'd' {
        cfg.set_opt_deps(true);
    } else if c == 'e' {
        cfg.set_opt_clean_dir(true);
    } else if c == 'm' {
        cfg.set_suffix(owned("-32bit"));
    } else if c == 'i' {
        cfg.set_opt_warn_conflict(false);
        cfg.set_conflict_mode(ConflictMode::Ignore);
        cfg.set_strict_symlinks(false);
    } else if c == 'f' || c == '-' {
    } else if c == 'F' {
        cfg.set_opt_fix_conflict(false);
    } else if c == 'L' {
        cfg.set_opt_lazy_soname(true);
    } else if c == 'R' {
        cfg.set_opt_register(false);
    } else if c == 'q' || c == 'Q' || c == 'b' || c == 'c' || c == 'C' || c == 'r' || c == 'I'
        || c == 'h' {
        let cs = char_string(c);
        return Some(concat3("install mode does not support xdeb option '-", cs.as_str(), "'"));
    } else {
        let cs = char_string(c);
        return Some(concat3("invalid xdeb option '-", cs.as_str(), "'"));
    }
    None
}

/// Applies conversion flags such as `-Sde`, given to the `install` mode, to
/// `cfg`; modes that install mode cannot use are refused.
pub fn apply_xdeb_options(cfg: &mut Config, options: &str) -> (r: OptionsOutcome)
    ensures
        ({
            let (s2, e) = xdeb_from((old(cfg)@, seq![]), options@, lead_dashes(options@) as int);
            &&& (final(cfg)@, r.actions@) == s2
            &&& match r.result {
                Ok(()) => e is None,
                Err(m) => e == Some(m@),
            }
        }),
{
    let cs = to_chars(options);
    let mut j: usize = 0;
    while j < cs.len() && cs[j] == '-'
        invariant
            0 <= j <= cs@.len(),
            forall|k: int| 0 <= k < j ==> cs@[k] == '-',
        decreases cs.len() - j,
    {
        j += 1;
    }
    proof {
        lemma_lead_dashes(cs@, j as int);
    }
    let ghost st0 = (cfg@, Seq::<SetupAction>::empty());
    let ghost goal = xdeb_from(st0, cs@, j as int);
    let mut actions: Vec<SetupAction> = Vec::new();
    while j < cs.len()
        invariant
            0 <= j <= cs@.len(),
            cs@ == options@,
            st0 == (old(cfg)@, Seq::<SetupAction>::empty()),
            goal == xdeb_from(st0, cs@, lead_dashes(options@) as int),
            xdeb_from((cfg@, actions@), cs@, j as int) == goal,
        decreases cs.len() - j,
    {
        let ghost stj = (cfg@, actions@);
        match xdeb_flag_exec(cfg, &mut actions, cs[j]) {
            Some(m) => {
                assert(xdeb_from(stj, cs@, j as int) == ((cfg@, actions@), Some(m@)));
                return OptionsOutcome { actions, result: Err(m) };
            },
            None => {
                assert(xdeb_from(stj, cs@, j as int) == xdeb_from((cfg@, actions@), cs@, j + 1));
            },
        }
        j += 1;
    }
    OptionsOutcome { actions, result: Ok(()) }
}

proof fn lemma_lead_dashes(s: Seq<char>, j: int)
    requires
        0 <= j <= s.len(),
        forall|k: int| 0 <= k < j ==> s[k] == '-',
        j == s.len() || s[j] != '-',
    ensures
        lead_dashes(s) == j,
    decreases j,
{
    if j > 0 {
        let t = s.drop_first();
        assert forall|k: int| 0 <= k < j - 1 implies t[k] == '-' by {
            assert(t[k] == s[k + 1]);
        }
        if j - 1 < t.len() {
            assert(t[j - 1] == s[j]);
        }
        lemma_lead_dashes(t, j - 1);
    }
}

} // verus!
