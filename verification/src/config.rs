//! The conversion settings and the paths of the package root.
use vstd::prelude::*;
use crate::order::{sort_dedup, strictly_sorted};
use crate::paths::{spec_with_extension, with_extension};
use crate::text::{
    starts_with, append, append_char, ends_with, extend_strings, opt_view, owned, str_ends_with, string_from, to_chars, views,
};

verus! {

/// How file conflicts with the running system are treated.
#[derive(Clone, Copy, Debug, PartialEq, Eq, Structural)]
pub enum ConflictMode {
    Warn,
    Error,
    Ignore,
    Auto,
}

/// The C library of the host system.
#[derive(Clone, Copy, Debug, PartialEq, Eq, Structural)]
pub enum HostLibc {
    Glibc,
    Musl,
    Unknown,
}

/// The settings of one conversion; paths are held as strings.
#[derive(Debug)]
pub struct Config {
    pub pkgroot: String,
    pub workdir: String,
    pub destdir: String,
    pub datadir: String,
    pub binpkgs: String,
    pub shlibs: String,
    pub opt_deps: bool,
    pub opt_quit: bool,
    pub opt_extract: bool,
    pub opt_install: bool,
    pub opt_register: bool,
    pub opt_clean_dir: bool,
    pub opt_lazy_soname: bool,
    pub opt_fix_conflict: bool,
    pub opt_warn_conflict: bool,
    pub suffix: String,
    pub dependencies: Vec<String>,
    pub not_dependencies: Vec<String>,
    pub conflicts: Vec<String>,
    pub replaces: Vec<String>,
    pub provides: Vec<String>,
    pub arch: Option<String>,
    pub name: Option<String>,
    pub version: Option<String>,
    pub revision: Option<String>,
    pub post_extract: Option<String>,
    pub basepkg: Option<String>,
    pub refused: bool,
    pub dry_run: bool,
    pub explain_deps: bool,
    pub dep_explanations: Vec<String>,
    pub json: bool,
    pub keep_workdir: bool,
    pub missing_deps_error: bool,
    pub conflict_mode: ConflictMode,
    /// Symlinks in the package that escape its root are refused.
    pub strict_symlinks: bool,
}

/// The names that a path segment leaves on the stack of normalized names:
/// empty and `.` segments are dropped, `..` removes the last name.
pub open spec fn apply_segment(names: Seq<Seq<char>>, seg: Seq<char>) -> Seq<Seq<char>> {
    if seg.len() == 0 || seg == seq!['.'] {
        names
    } else if seg == seq!['.', '.'] {
        if names.len() > 0 {
            names.drop_last()
        } else {
            names
        }
    } else {
        names.push(seg)
    }
}

/// Left-to-right reading of a path: the names so far and the segment being read.
pub open spec fn scan_path(s: Seq<char>) -> (Seq<Seq<char>>, Seq<char>)
    decreases s.len(),
{
    if s.len() == 0 {
        (seq![], seq![])
    } else {
        let (names, cur) = scan_path(s.drop_last());
        if s.last() == '/' {
            (apply_segment(names, cur), seq![])
        } else {
            (names, cur.push(s.last()))
        }
    }
}

/// The normal components that remain of a path once `.` and `..` are resolved.
pub open spec fn path_names(s: Seq<char>) -> Seq<Seq<char>> {
    let (names, cur) = scan_path(s);
    apply_segment(names, cur)
}

/// Names joined by `/`.
pub open spec fn join_names(names: Seq<Seq<char>>) -> Seq<char>
    decreases names.len(),
{
    if names.len() == 0 {
        seq![]
    } else if names.len() == 1 {
        names[0]
    } else {
        join_names(names.drop_last()) + seq!['/'] + names.last()
    }
}

/// The lexically normalized form of a path: rooted when it begins with `/`,
/// then its remaining names joined by `/`.
pub open spec fn normal_form(s: Seq<char>) -> Seq<char> {
    if s.len() > 0 && s[0] == '/' {
        seq!['/'] + join_names(path_names(s))
    } else {
        join_names(path_names(s))
    }
}

/// The absolute form of `path` relative to the directory `cwd`.
pub open spec fn spec_normalize_path(cwd: Seq<char>, path: Seq<char>) -> Seq<char> {
    if path.len() > 0 && path[0] == '/' {
        normal_form(path)
    } else {
        normal_form(cwd + seq!['/'] + path)
    }
}

/// A name that a normalized path is made of: not empty, not `.` or `..`,
/// and without `/`.
pub open spec fn normal_name(n: Seq<char>) -> bool {
    &&& n.len() > 0
    &&& n != seq!['.']
    &&& n != seq!['.', '.']
    &&& forall|i: int| 0 <= i < n.len() ==> #[trigger] n[i] != '/'
}

pub open spec fn all_normal(ns: Seq<Seq<char>>) -> bool {
    forall|i: int| 0 <= i < ns.len() ==> normal_name(#[trigger] ns[i])
}

proof fn lemma_apply_segment_normal(names: Seq<Seq<char>>, seg: Seq<char>)
    requires
        all_normal(names),
        forall|i: int| 0 <= i < seg.len() ==> #[trigger] seg[i] != '/',
    ensures
        all_normal(apply_segment(names, seg)),
{
    let r = apply_segment(names, seg);
    assert forall|i: int| 0 <= i < r.len() implies normal_name(#[trigger] r[i]) by {
        if i < names.len() {
            assert(r[i] == names[i]);
        }
    }
}

proof fn lemma_scan_path_normal(s: Seq<char>)
    ensures
        all_normal(scan_path(s).0),
        forall|i: int| 0 <= i < scan_path(s).1.len() ==> #[trigger] scan_path(s).1[i] != '/',
    decreases s.len(),
{
    if s.len() > 0 {
        lemma_scan_path_normal(s.drop_last());
        let (names, cur) = scan_path(s.drop_last());
        if s.last() == '/' {
            lemma_apply_segment_normal(names, cur);
        } else {
            let c2 = cur.push(s.last());
            assert forall|i: int| 0 <= i < c2.len() implies #[trigger] c2[i] != '/' by {
                if i < cur.len() {
                    assert(c2[i] == cur[i]);
                }
            }
        }
    }
}

/// The names of any path are normal names.
pub proof fn lemma_path_names_normal(s: Seq<char>)
    ensures
        all_normal(path_names(s)),
{
    lemma_scan_path_normal(s);
    lemma_apply_segment_normal(scan_path(s).0, scan_path(s).1);
}

proof fn lemma_scan_path_no_slash(p: Seq<char>, a: Seq<char>)
    requires
        forall|i: int| 0 <= i < a.len() ==> #[trigger] a[i] != '/',
    ensures
        scan_path(p + a) == (scan_path(p).0, scan_path(p).1 + a),
    decreases a.len(),
{
    if a.len() == 0 {
        assert(p + a =~= p);
        assert(scan_path(p).1 + a =~= scan_path(p).1);
    } else {
        let a0 = a.drop_last();
        assert forall|i: int| 0 <= i < a0.len() implies #[trigger] a0[i] != '/' by {
            assert(a0[i] == a[i]);
        }
        lemma_scan_path_no_slash(p, a0);
        assert((p + a).drop_last() =~= p + a0);
        assert((p + a).last() == a.last());
        assert((scan_path(p).1 + a0).push(a.last()) =~= scan_path(p).1 + a);
    }
}

proof fn lemma_scan_root()
    ensures
        scan_path(seq!['/']) == (Seq::<Seq<char>>::empty(), Seq::<char>::empty()),
{
    let root = seq!['/'];
    let e = Seq::<char>::empty();
    assert(root.drop_last() =~= e);
    assert(root.last() == '/');
    assert(scan_path(e) == (Seq::<Seq<char>>::empty(), e));
    assert(apply_segment(Seq::<Seq<char>>::empty(), e) == Seq::<Seq<char>>::empty());
}

proof fn lemma_scan_rooted_join(ns: Seq<Seq<char>>)
    requires
        ns.len() > 0,
        all_normal(ns),
    ensures
        scan_path(seq!['/'] + join_names(ns)) == (ns.drop_last(), ns.last()),
    decreases ns.len(),
{
    let root = seq!['/'];
    lemma_scan_root();
    if ns.len() == 1 {
        assert(normal_name(ns[0]));
        lemma_scan_path_no_slash(root, ns[0]);
        assert(Seq::<char>::empty() + ns[0] =~= ns[0]);
        assert(ns.drop_last() =~= Seq::<Seq<char>>::empty());
    } else {
        let ns0 = ns.drop_last();
        assert forall|i: int| 0 <= i < ns0.len() implies normal_name(#[trigger] ns0[i]) by {
            assert(ns0[i] == ns[i]);
        }
        lemma_scan_rooted_join(ns0);
        let q = root + join_names(ns0) + seq!['/'];
        assert(q.drop_last() =~= root + join_names(ns0));
        assert(normal_name(ns0.last()));
        assert(ns0.drop_last().push(ns0.last()) =~= ns0);
        assert(scan_path(q) == (ns0, Seq::<char>::empty()));
        assert(normal_name(ns.last()));
        lemma_scan_path_no_slash(q, ns.last());
        assert(root + join_names(ns) =~= q + ns.last());
        assert(Seq::<char>::empty() + ns.last() =~= ns.last());
    }
}

proof fn lemma_path_names_rooted_join(ns: Seq<Seq<char>>)
    requires
        all_normal(ns),
    ensures
        path_names(seq!['/'] + join_names(ns)) == ns,
{
    if ns.len() == 0 {
        let root = seq!['/'];
        assert(root + join_names(ns) =~= root);
        lemma_scan_root();
        assert(ns =~= Seq::<Seq<char>>::empty());
    } else {
        lemma_scan_rooted_join(ns);
        assert(normal_name(ns.last()));
        assert(ns.drop_last().push(ns.last()) =~= ns);
    }
}

/// Normalizing a path twice gives what normalizing it once gives, against a
/// working directory that is absolute (as the process's always is); the
/// result is absolute and made of normal names.
pub proof fn lemma_normalize_path_idempotent(cwd: Seq<char>, p: Seq<char>)
    requires
        cwd.len() > 0,
        cwd[0] == '/',
    ensures
        spec_normalize_path(cwd, p)[0] == '/',
        all_normal(path_names(spec_normalize_path(cwd, p))),
        spec_normalize_path(cwd, spec_normalize_path(cwd, p)) == spec_normalize_path(cwd, p),
{
    let full = if p.len() > 0 && p[0] == '/' {
        p
    } else {
        cwd + seq!['/'] + p
    };
    assert(full[0] == '/');
    let ns = path_names(full);
    lemma_path_names_normal(full);
    let n = seq!['/'] + join_names(ns);
    assert(spec_normalize_path(cwd, p) == n);
    lemma_path_names_rooted_join(ns);
    assert(n[0] == '/');
}

/// `base` joined with the relative name `name`, as `Path::join` does it.
pub open spec fn spec_join_path(base: Seq<char>, name: Seq<char>) -> Seq<char> {
    if base.len() == 0 {
        name
    } else if base.last() == '/' {
        base + name
    } else {
        base + seq!['/'] + name
    }
}

fn segment_kind(v: &[char], from: usize, to: usize) -> (r: u8)
    requires
        from <= to <= v@.len(),
    ensures
        ({
            let seg = v@.subrange(from as int, to as int);
            &&& r == 0 <==> (seg.len() == 0 || seg == seq!['.'])
            &&& r == 1 <==> seg == seq!['.', '.']
            &&& r == 2 <==> !(seg.len() == 0 || seg == seq!['.'] || seg == seq!['.', '.'])
        }),
{
    let ghost seg = v@.subrange(from as int, to as int);
    assert(seq!['.'].len() == 1 && seq!['.', '.'].len() == 2);
    let n = to - from;
    if n == 0 {
        0
    } else if n == 1 && v[from] == '.' {
        assert(seg =~= seq!['.']);
        0
    } else if n == 2 && v[from] == '.' && v[from + 1] == '.' {
        assert(seg =~= seq!['.', '.']);
        1
    } else {
        proof {
            if seg == seq!['.'] {
                assert(seg[0] == v@[from as int]);
            }
            if seg == seq!['.', '.'] {
                assert(seg[0] == v@[from as int] && seg[1] == v@[from + 1]);
            }
        }
        2
    }
}

fn apply_segment_exec(names: &mut Vec<Vec<char>>, v: &[char], from: usize, to: usize)
    requires
        from <= to <= v@.len(),
    ensures
        final(names)@.map_values(|n: Vec<char>| n@) == apply_segment(
            old(names)@.map_values(|n: Vec<char>| n@),
            v@.subrange(from as int, to as int),
        ),
{
    let k = segment_kind(v, from, to);
    if k == 1 {
        if names.len() > 0 {
            names.pop();
            assert(names@.map_values(|n: Vec<char>| n@) =~= old(names)@.map_values(
                |n: Vec<char>| n@,
            ).drop_last());
        }
    } else if k == 2 {
        let mut seg: Vec<char> = Vec::new();
        let mut i: usize = from;
        while i < to
            invariant
                from <= i <= to <= v@.len(),
                seg@ == v@.subrange(from as int, i as int),
            decreases to - i,
        {
            seg.push(v[i]);
            assert(v@.subrange(from as int, i + 1) =~= v@.subrange(from as int, i as int).push(
                v@[i as int],
            ));
            i += 1;
        }
        let ghost s = seg@;
        names.push(seg);
        assert(names@.map_values(|n: Vec<char>| n@) =~= old(names)@.map_values(
            |n: Vec<char>| n@,
        ).push(s));
    }
}

fn names_of(v: &[char]) -> (r: Vec<Vec<char>>)
    ensures
        r@.map_values(|n: Vec<char>| n@) == path_names(v@),
{
    let mut names: Vec<Vec<char>> = Vec::new();
    let mut start: usize = 0;
    let mut i: usize = 0;
    while i < v.len()
        invariant
            0 <= start <= i <= v@.len(),
            names@.map_values(|n: Vec<char>| n@) == scan_path(v@.take(i as int)).0,
            v@.subrange(start as int, i as int) == scan_path(v@.take(i as int)).1,
        decreases v.len() - i,
    {
        assert(v@.take(i + 1).drop_last() =~= v@.take(i as int));
        assert(v@.take(i + 1).last() == v@[i as int]);
        if v[i] == '/' {
            apply_segment_exec(&mut names, v, start, i);
            start = i + 1;
            assert(v@.subrange(start as int, i + 1) =~= Seq::<char>::empty());
        } else {
            assert(v@.subrange(start as int, i + 1) =~= v@.subrange(start as int, i as int).push(
                v@[i as int],
            ));
        }
        i += 1;
    }
    assert(v@.take(i as int) =~= v@);
    apply_segment_exec(&mut names, v, start, i);
    names
}

fn join_exec(names: &Vec<Vec<char>>, out: &mut Vec<char>)
    ensures
        final(out)@ == old(out)@ + join_names(names@.map_values(|n: Vec<char>| n@)),
{
    let ghost ns = names@.map_values(|n: Vec<char>| n@);
    let ghost o0 = out@;
    let mut i: usize = 0;
    while i < names.len()
        invariant
            0 <= i <= names@.len(),
            ns == names@.map_values(|n: Vec<char>| n@),
            out@ == o0 + join_names(ns.take(i as int)),
        decreases names.len() - i,
    {
        let ghost before = out@;
        if i > 0 {
            out.push('/');
        }
        let name = &names[i];
        let mut j: usize = 0;
        while j < name.len()
            invariant
                0 <= j <= name@.len(),
                out@ == before + (if i > 0 { seq!['/'] } else { seq![] }) + name@.take(j as int),
            decreases name.len() - j,
        {
            out.push(name[j]);
            assert(name@.take(j + 1) =~= name@.take(j as int).push(name@[j as int]));
            j += 1;
        }
        assert(name@.take(j as int) =~= name@);
        assert(ns.take(i + 1).drop_last() =~= ns.take(i as int));
        assert(ns.take(i + 1).last() == name@);
        if i == 0 {
            assert(ns.take(1) =~= seq![name@]);
        }
        i += 1;
    }
    assert(ns.take(i as int) =~= ns);
}

/// The normalized form of a path.
pub fn normal_path(path: &str) -> (r: String)
    ensures
        r@ == normal_form(path@),
{
    let v = to_chars(path);
    let names = names_of(&v);
    let mut out: Vec<char> = Vec::new();
    if v.len() > 0 && v[0] == '/' {
        out.push('/');
    }
    join_exec(&names, &mut out);
    string_from(&out)
}

/// `path` made absolute against the working directory `cwd`, with `.` and
/// `..` resolved lexically.
pub fn normalize_path(cwd: &str, path: &str) -> (r: String)
    ensures
        r@ == spec_normalize_path(cwd@, path@),
{
    let v = to_chars(path);
    if v.len() > 0 && v[0] == '/' {
        normal_path(path)
    } else {
        let mut full = owned(cwd);
        append_char(&mut full, '/');
        append(&mut full, path);
        assert(full@ =~= cwd@ + seq!['/'] + path@);
        normal_path(full.as_str())
    }
}

/// `base` joined with the relative name `name`.
pub fn join_path(base: &str, name: &str) -> (r: String)
    ensures
        r@ == spec_join_path(base@, name@),
{
    let b = to_chars(base);
    let mut out = owned(base);
    if b.len() > 0 && b[b.len() - 1] != '/' {
        append_char(&mut out, '/');
    }
    append(&mut out, name);
    out
}

/// The value of a configuration as mathematical data.
pub struct ConfigView {
    pub pkgroot: Seq<char>,
    pub workdir: Seq<char>,
    pub destdir: Seq<char>,
    pub datadir: Seq<char>,
    pub binpkgs: Seq<char>,
    pub shlibs: Seq<char>,
    pub opt_deps: bool,
    pub opt_quit: bool,
    pub opt_extract: bool,
    pub opt_install: bool,
    pub opt_register: bool,
    pub opt_clean_dir: bool,
    pub opt_lazy_soname: bool,
    pub opt_fix_conflict: bool,
    pub opt_warn_conflict: bool,
    pub suffix: Seq<char>,
    pub dependencies: Seq<Seq<char>>,
    pub not_dependencies: Seq<Seq<char>>,
    pub conflicts: Seq<Seq<char>>,
    pub replaces: Seq<Seq<char>>,
    pub provides: Seq<Seq<char>>,
    pub arch: Option<Seq<char>>,
    pub name: Option<Seq<char>>,
    pub version: Option<Seq<char>>,
    pub revision: Option<Seq<char>>,
    pub post_extract: Option<Seq<char>>,
    pub basepkg: Option<Seq<char>>,
    pub refused: bool,
    pub dry_run: bool,
    pub explain_deps: bool,
    pub dep_explanations: Seq<Seq<char>>,
    pub json: bool,
    pub keep_workdir: bool,
    pub missing_deps_error: bool,
    pub conflict_mode: ConflictMode,
    pub strict_symlinks: bool,
}

impl View for Config {
    type V = ConfigView;

    open spec fn view(&self) -> ConfigView {
        ConfigView {
            pkgroot: self.pkgroot@,
            workdir: self.workdir@,
            destdir: self.destdir@,
            datadir: self.datadir@,
            binpkgs: self.binpkgs@,
            shlibs: self.shlibs@,
            opt_deps: self.opt_deps,
            opt_quit: self.opt_quit,
            opt_extract: self.opt_extract,
            opt_install: self.opt_install,
            opt_register: self.opt_register,
            opt_clean_dir: self.opt_clean_dir,
            opt_lazy_soname: self.opt_lazy_soname,
            opt_fix_conflict: self.opt_fix_conflict,
            opt_warn_conflict: self.opt_warn_conflict,
            suffix: self.suffix@,
            dependencies: views(self.dependencies@),
            not_dependencies: views(self.not_dependencies@),
            conflicts: views(self.conflicts@),
            replaces: views(self.replaces@),
            provides: views(self.provides@),
            arch: opt_view(self.arch),
            name: opt_view(self.name),
            version: opt_view(self.version),
            revision: opt_view(self.revision),
            post_extract: opt_view(self.post_extract),
            basepkg: opt_view(self.basepkg),
            refused: self.refused,
            dry_run: self.dry_run,
            explain_deps: self.explain_deps,
            dep_explanations: views(self.dep_explanations@),
            json: self.json,
            keep_workdir: self.keep_workdir,
            missing_deps_error: self.missing_deps_error,
            conflict_mode: self.conflict_mode,
            strict_symlinks: self.strict_symlinks,
        }
    }
}

/// The settings that a fresh configuration starts with.
pub open spec fn has_default_settings(c: Config) -> bool {
    &&& !c.opt_deps
    &&& !c.opt_quit
    &&& c.opt_extract
    &&& !c.opt_install
    &&& c.opt_register
    &&& !c.opt_clean_dir
    &&& !c.opt_lazy_soname
    &&& c.opt_fix_conflict
    &&& c.opt_warn_conflict
    &&& c.suffix@.len() == 0
    &&& c.dependencies@.len() == 0
    &&& c.not_dependencies@.len() == 0
    &&& c.conflicts@.len() == 0
    &&& c.replaces@.len() == 0
    &&& c.provides@.len() == 0
    &&& c.arch is None
    &&& c.name is None
    &&& c.version is None
    &&& c.revision is None
    &&& c.post_extract is None
    &&& c.basepkg is None
    &&& !c.refused
    &&& !c.dry_run
    &&& !c.explain_deps
    &&& c.dep_explanations@.len() == 0
    &&& !c.json
    &&& !c.keep_workdir
    &&& !c.missing_deps_error
    &&& c.conflict_mode == ConflictMode::Error
    &&& c.strict_symlinks
}

/// One step of cleaning the package root.
pub enum CleanStep {
    /// Remove this path, recursively for a directory.
    Remove(String),
    /// Remove the entries of this directory whose names end with `-repodata`.
    RemoveRepodata(String),
}

impl Config {
    /// A configuration with the given paths and the default settings.
    pub fn with_paths(
        pkgroot: String,
        workdir: String,
        destdir: String,
        datadir: String,
        binpkgs: String,
        shlibs: String,
    ) -> (r: Config)
        ensures
            r.pkgroot == pkgroot,
            r.workdir == workdir,
            r.destdir == destdir,
            r.datadir == datadir,
            r.binpkgs == binpkgs,
            r.shlibs == shlibs,
            has_default_settings(r),
    {
        Config {
            pkgroot,
            workdir,
            destdir,
            datadir,
            binpkgs,
            shlibs,
            opt_deps: false,
            opt_quit: false,
            opt_extract: true,
            opt_install: false,
            opt_register: true,
            opt_clean_dir: false,
            opt_lazy_soname: false,
            opt_fix_conflict: true,
            opt_warn_conflict: true,
            suffix: String::new(),
            dependencies: Vec::new(),
            not_dependencies: Vec::new(),
            conflicts: Vec::new(),
            replaces: Vec::new(),
            provides: Vec::new(),
            arch: None,
            name: None,
            version: None,
            revision: None,
            post_extract: None,
            basepkg: None,
            refused: false,
            dry_run: false,
            explain_deps: false,
            dep_explanations: Vec::new(),
            json: false,
            keep_workdir: false,
            missing_deps_error: false,
            conflict_mode: ConflictMode::Error,
            strict_symlinks: true,
        }
    }

    /// The default configuration rooted at `pkgroot`, made absolute against
    /// `cwd`: its work, data and package directories lie directly under it.
    pub fn for_pkgroot(cwd: &str, pkgroot: &str) -> (r: Config)
        ensures
            r.pkgroot@ == spec_normalize_path(cwd@, pkgroot@),
            r.workdir@ == spec_join_path(r.pkgroot@, "workdir"@),
            r.destdir@ == spec_join_path(r.pkgroot@, "destdir"@),
            r.datadir@ == spec_join_path(r.pkgroot@, "datadir"@),
            r.binpkgs@ == spec_join_path(r.pkgroot@, "binpkgs"@),
            r.shlibs@ == spec_join_path(r.pkgroot@, "shlibs"@),
            has_default_settings(r),
    {
        let root = normalize_path(cwd, pkgroot);
        let workdir = join_path(root.as_str(), "workdir");
        let destdir = join_path(root.as_str(), "destdir");
        let datadir = join_path(root.as_str(), "datadir");
        let binpkgs = join_path(root.as_str(), "binpkgs");
        let shlibs = join_path(root.as_str(), "shlibs");
        Config::with_paths(root, workdir, destdir, datadir, binpkgs, shlibs)
    }
}

/// The paths that a plain clean removes: the work, data and destination
/// directories, in that order.
pub fn clean(cfg: &Config) -> (r: Vec<String>)
    ensures
        r@.len() == 3,
        r@[0]@ == cfg.workdir@,
        r@[1]@ == cfg.datadir@,
        r@[2]@ == cfg.destdir@,
{
    let mut r: Vec<String> = Vec::new();
    r.push(cfg.workdir.clone());
    r.push(cfg.datadir.clone());
    r.push(cfg.destdir.clone());
    r
}

/// `p` is `root` itself or lies under it.
pub open spec fn within(p: Seq<char>, root: Seq<char>) -> bool {
    p == root || starts_with(p, root + seq!['/'])
}

/// The paths of a file system, given as the set of its paths, that remain
/// once each of `roots` is removed with everything under it, as a clean
/// step `Remove` removes it.
pub open spec fn after_removing(fs: Set<Seq<char>>, roots: Seq<Seq<char>>) -> Set<Seq<char>> {
    fs.filter(|p: Seq<char>| !(exists|k: int| 0 <= k < roots.len() && within(p, #[trigger] roots[k])))
}

/// What removing the paths that `clean` gives does: afterwards nothing is
/// left of the work, data and destination directories, every path that lies
/// under none of them is left as it was (the package directory and the
/// shlibs file among them, when they lie outside the three), and cleaning
/// again changes nothing.
pub proof fn lemma_clean_effect(cfg: Config, fs: Set<Seq<char>>, q: Seq<char>)
    ensures
        ({
            let roots = seq![cfg.workdir@, cfg.datadir@, cfg.destdir@];
            let after = after_removing(fs, roots);
            &&& forall|p: Seq<char>|
                #![trigger after.contains(p)]
                (within(p, cfg.workdir@) || within(p, cfg.datadir@) || within(p, cfg.destdir@))
                    ==> !after.contains(p)
            &&& !(within(q, cfg.workdir@) || within(q, cfg.datadir@) || within(q, cfg.destdir@))
                ==> (after.contains(q) == fs.contains(q))
            &&& after_removing(after, roots) == after
        }),
{
    let roots = seq![cfg.workdir@, cfg.datadir@, cfg.destdir@];
    let after = after_removing(fs, roots);
    assert forall|p: Seq<char>|
        (within(p, cfg.workdir@) || within(p, cfg.datadir@) || within(p, cfg.destdir@))
            implies !#[trigger] after.contains(p) by {
        if within(p, cfg.workdir@) {
            assert(within(p, roots[0]));
        } else if within(p, cfg.datadir@) {
            assert(within(p, roots[1]));
        } else {
            assert(within(p, roots[2]));
        }
    }
    if !(within(q, cfg.workdir@) || within(q, cfg.datadir@) || within(q, cfg.destdir@)) {
        assert(!(exists|k: int| 0 <= k < roots.len() && within(q, #[trigger] roots[k]))) by {
            if exists|k: int| 0 <= k < roots.len() && within(q, #[trigger] roots[k]) {
                let k = choose|k: int| 0 <= k < roots.len() && within(q, #[trigger] roots[k]);
                assert(k == 0 || k == 1 || k == 2);
            }
        }
    }
    assert(after_removing(after, roots) =~= after);
}

/// The steps of a full clean: the plain clean, the repository data in the
/// package directory, then the package directory, the shlibs file and the
/// metadata file written beside it.
pub fn clean_all(cfg: &Config) -> (r: Vec<CleanStep>)
    ensures
        r@.len() == 7,
        r@[0] matches CleanStep::Remove(p) && p@ == cfg.workdir@,
        r@[1] matches CleanStep::Remove(p) && p@ == cfg.datadir@,
        r@[2] matches CleanStep::Remove(p) && p@ == cfg.destdir@,
        r@[3] matches CleanStep::RemoveRepodata(p) && p@ == cfg.binpkgs@,
        r@[4] matches CleanStep::Remove(p) && p@ == cfg.binpkgs@,
        r@[5] matches CleanStep::Remove(p) && p@ == cfg.shlibs@,
        r@[6] matches CleanStep::Remove(p) && p@ == spec_with_extension(cfg.shlibs@, "meta"@),
{
    let mut r: Vec<CleanStep> = Vec::new();
    let mut plain = clean(cfg);
    let destdir = plain.pop().unwrap();
    let datadir = plain.pop().unwrap();
    let workdir = plain.pop().unwrap();
    r.push(CleanStep::Remove(workdir));
    r.push(CleanStep::Remove(datadir));
    r.push(CleanStep::Remove(destdir));
    r.push(CleanStep::RemoveRepodata(cfg.binpkgs.clone()));
    r.push(CleanStep::Remove(cfg.binpkgs.clone()));
    r.push(CleanStep::Remove(cfg.shlibs.clone()));
    r.push(CleanStep::Remove(with_extension(cfg.shlibs.as_str(), "meta")));
    r
}

/// Whether a directory entry is repository data (its name ends with `-repodata`).
pub fn is_repodata_name(name: &str) -> (r: bool)
    ensures
        r == ends_with(name@, "-repodata"@),
{
    str_ends_with(name, "-repodata")
}


/// Updates of one setting, kept opaque so that a choice among many updates
/// stays cheap to reason about.
#[verifier::opaque]
pub open spec fn with_opt_deps(m: ConfigView, v: bool) -> ConfigView {
    ConfigView { opt_deps: v, ..m }
}

#[verifier::opaque]
pub open spec fn with_opt_quit(m: ConfigView, v: bool) -> ConfigView {
    ConfigView { opt_quit: v, ..m }
}

#[verifier::opaque]
pub open spec fn with_opt_extract(m: ConfigView, v: bool) -> ConfigView {
    ConfigView { opt_extract: v, ..m }
}

#[verifier::opaque]
pub open spec fn with_opt_install(m: ConfigView, v: bool) -> ConfigView {
    ConfigView { opt_install: v, ..m }
}

#[verifier::opaque]
pub open spec fn with_opt_register(m: ConfigView, v: bool) -> ConfigView {
    ConfigView { opt_register: v, ..m }
}

#[verifier::opaque]
pub open spec fn with_opt_clean_dir(m: ConfigView, v: bool) -> ConfigView {
    ConfigView { opt_clean_dir: v, ..m }
}

#[verifier::opaque]
pub open spec fn with_opt_lazy_soname(m: ConfigView, v: bool) -> ConfigView {
    ConfigView { opt_lazy_soname: v, ..m }
}

#[verifier::opaque]
pub open spec fn with_opt_fix_conflict(m: ConfigView, v: bool) -> ConfigView {
    ConfigView { opt_fix_conflict: v, ..m }
}

#[verifier::opaque]
pub open spec fn with_opt_warn_conflict(m: ConfigView, v: bool) -> ConfigView {
    ConfigView { opt_warn_conflict: v, ..m }
}

#[verifier::opaque]
pub open spec fn with_suffix(m: ConfigView, v: Seq<char>) -> ConfigView {
    ConfigView { suffix: v, ..m }
}

#[verifier::opaque]
pub open spec fn with_dependencies(m: ConfigView, v: Seq<Seq<char>>) -> ConfigView {
    ConfigView { dependencies: v, ..m }
}

#[verifier::opaque]
pub open spec fn with_not_dependencies(m: ConfigView, v: Seq<Seq<char>>) -> ConfigView {
    ConfigView { not_dependencies: v, ..m }
}

#[verifier::opaque]
pub open spec fn with_conflicts(m: ConfigView, v: Seq<Seq<char>>) -> ConfigView {
    ConfigView { conflicts: v, ..m }
}

#[verifier::opaque]
pub open spec fn with_replaces(m: ConfigView, v: Seq<Seq<char>>) -> ConfigView {
    ConfigView { replaces: v, ..m }
}

#[verifier::opaque]
pub open spec fn with_provides(m: ConfigView, v: Seq<Seq<char>>) -> ConfigView {
    ConfigView { provides: v, ..m }
}

#[verifier::opaque]
pub open spec fn with_arch(m: ConfigView, v: Option<Seq<char>>) -> ConfigView {
    ConfigView { arch: v, ..m }
}

#[verifier::opaque]
pub open spec fn with_name(m: ConfigView, v: Option<Seq<char>>) -> ConfigView {
    ConfigView { name: v, ..m }
}

#[verifier::opaque]
pub open spec fn with_version(m: ConfigView, v: Option<Seq<char>>) -> ConfigView {
    ConfigView { version: v, ..m }
}

#[verifier::opaque]
pub open spec fn with_revision(m: ConfigView, v: Option<Seq<char>>) -> ConfigView {
    ConfigView { revision: v, ..m }
}

#[verifier::opaque]
pub open spec fn with_post_extract(m: ConfigView, v: Option<Seq<char>>) -> ConfigView {
    ConfigView { post_extract: v, ..m }
}

#[verifier::opaque]
pub open spec fn with_basepkg(m: ConfigView, v: Option<Seq<char>>) -> ConfigView {
    ConfigView { basepkg: v, ..m }
}

#[verifier::opaque]
pub open spec fn with_refused(m: ConfigView, v: bool) -> ConfigView {
    ConfigView { refused: v, ..m }
}

#[verifier::opaque]
pub open spec fn with_dry_run(m: ConfigView, v: bool) -> ConfigView {
    ConfigView { dry_run: v, ..m }
}

#[verifier::opaque]
pub open spec fn with_explain_deps(m: ConfigView, v: bool) -> ConfigView {
    ConfigView { explain_deps: v, ..m }
}

#[verifier::opaque]
pub open spec fn with_dep_explanations(m: ConfigView, v: Seq<Seq<char>>) -> ConfigView {
    ConfigView { dep_explanations: v, ..m }
}

#[verifier::opaque]
pub open spec fn with_json(m: ConfigView, v: bool) -> ConfigView {
    ConfigView { json: v, ..m }
}

#[verifier::opaque]
pub open spec fn with_keep_workdir(m: ConfigView, v: bool) -> ConfigView {
    ConfigView { keep_workdir: v, ..m }
}

#[verifier::opaque]
pub open spec fn with_missing_deps_error(m: ConfigView, v: bool) -> ConfigView {
    ConfigView { missing_deps_error: v, ..m }
}

#[verifier::opaque]
pub open spec fn with_conflict_mode(m: ConfigView, v: ConflictMode) -> ConfigView {
    ConfigView { conflict_mode: v, ..m }
}

#[verifier::opaque]
pub open spec fn with_strict_symlinks(m: ConfigView, v: bool) -> ConfigView {
    ConfigView { strict_symlinks: v, ..m }
}

impl Config {
    /// Sets `opt_deps`.
    pub fn set_opt_deps(&mut self, v: bool)
        ensures
            final(self)@ == with_opt_deps(old(self)@, v),
    {
        proof {
            reveal(with_opt_deps);
        }
        self.opt_deps = v;
    }

    /// Sets `opt_quit`.
    pub fn set_opt_quit(&mut self, v: bool)
        ensures
            final(self)@ == with_opt_quit(old(self)@, v),
    {
        proof {
            reveal(with_opt_quit);
        }
        self.opt_quit = v;
    }

    /// Sets `opt_extract`.
    pub fn set_opt_extract(&mut self, v: bool)
        ensures
            final(self)@ == with_opt_extract(old(self)@, v),
    {
        proof {
            reveal(with_opt_extract);
        }
        self.opt_extract = v;
    }

    /// Sets `opt_install`.
    pub fn set_opt_install(&mut self, v: bool)
        ensures
            final(self)@ == with_opt_install(old(self)@, v),
    {
        proof {
            reveal(with_opt_install);
        }
        self.opt_install = v;
    }

    /// Sets `opt_register`.
    pub fn set_opt_register(&mut self, v: bool)
        ensures
            final(self)@ == with_opt_register(old(self)@, v),
    {
        proof {
            reveal(with_opt_register);
        }
        self.opt_register = v;
    }

    /// Sets `opt_clean_dir`.
    pub fn set_opt_clean_dir(&mut self, v: bool)
        ensures
            final(self)@ == with_opt_clean_dir(old(self)@, v),
    {
        proof {
            reveal(with_opt_clean_dir);
        }
        self.opt_clean_dir = v;
    }

    /// Sets `opt_lazy_soname`.
    pub fn set_opt_lazy_soname(&mut self, v: bool)
        ensures
            final(self)@ == with_opt_lazy_soname(old(self)@, v),
    {
        proof {
            reveal(with_opt_lazy_soname);
        }
        self.opt_lazy_soname = v;
    }

    /// Sets `opt_fix_conflict`.
    pub fn set_opt_fix_conflict(&mut self, v: bool)
        ensures
            final(self)@ == with_opt_fix_conflict(old(self)@, v),
    {
        proof {
            reveal(with_opt_fix_conflict);
        }
        self.opt_fix_conflict = v;
    }

    /// Sets `opt_warn_conflict`.
    pub fn set_opt_warn_conflict(&mut self, v: bool)
        ensures
            final(self)@ == with_opt_warn_conflict(old(self)@, v),
    {
        proof {
            reveal(with_opt_warn_conflict);
        }
        self.opt_warn_conflict = v;
    }

    /// Sets `suffix`.
    pub fn set_suffix(&mut self, v: String)
        ensures
            final(self)@ == with_suffix(old(self)@, v@),
    {
        proof {
            reveal(with_suffix);
        }
        self.suffix = v;
    }

    /// Sets `dependencies`.
    pub fn set_dependencies(&mut self, v: Vec<String>)
        ensures
            final(self)@ == with_dependencies(old(self)@, views(v@)),
    {
        proof {
            reveal(with_dependencies);
        }
        self.dependencies = v;
    }

    /// Sets `not_dependencies`.
    pub fn set_not_dependencies(&mut self, v: Vec<String>)
        ensures
            final(self)@ == with_not_dependencies(old(self)@, views(v@)),
    {
        proof {
            reveal(with_not_dependencies);
        }
        self.not_dependencies = v;
    }

    /// Sets `conflicts`.
    pub fn set_conflicts(&mut self, v: Vec<String>)
        ensures
            final(self)@ == with_conflicts(old(self)@, views(v@)),
    {
        proof {
            reveal(with_conflicts);
        }
        self.conflicts = v;
    }

    /// Sets `replaces`.
    pub fn set_replaces(&mut self, v: Vec<String>)
        ensures
            final(self)@ == with_replaces(old(self)@, views(v@)),
    {
        proof {
            reveal(with_replaces);
        }
        self.replaces = v;
    }

    /// Sets `provides`.
    pub fn set_provides(&mut self, v: Vec<String>)
        ensures
            final(self)@ == with_provides(old(self)@, views(v@)),
    {
        proof {
            reveal(with_provides);
        }
        self.provides = v;
    }

    /// Sets `arch`.
    pub fn set_arch(&mut self, v: Option<String>)
        ensures
            final(self)@ == with_arch(old(self)@, opt_view(v)),
    {
        proof {
            reveal(with_arch);
        }
        self.arch = v;
    }

    /// Sets `name`.
    pub fn set_name(&mut self, v: Option<String>)
        ensures
            final(self)@ == with_name(old(self)@, opt_view(v)),
    {
        proof {
            reveal(with_name);
        }
        self.name = v;
    }

    /// Sets `version`.
    pub fn set_version(&mut self, v: Option<String>)
        ensures
            final(self)@ == with_version(old(self)@, opt_view(v)),
    {
        proof {
            reveal(with_version);
        }
        self.version = v;
    }

    /// Sets `revision`.
    pub fn set_revision(&mut self, v: Option<String>)
        ensures
            final(self)@ == with_revision(old(self)@, opt_view(v)),
    {
        proof {
            reveal(with_revision);
        }
        self.revision = v;
    }

    /// Sets `post_extract`.
    pub fn set_post_extract(&mut self, v: Option<String>)
        ensures
            final(self)@ == with_post_extract(old(self)@, opt_view(v)),
    {
        proof {
            reveal(with_post_extract);
        }
        self.post_extract = v;
    }

    /// Sets `basepkg`.
    pub fn set_basepkg(&mut self, v: Option<String>)
        ensures
            final(self)@ == with_basepkg(old(self)@, opt_view(v)),
    {
        proof {
            reveal(with_basepkg);
        }
        self.basepkg = v;
    }

    /// Sets `refused`.
    pub fn set_refused(&mut self, v: bool)
        ensures
            final(self)@ == with_refused(old(self)@, v),
    {
        proof {
            reveal(with_refused);
        }
        self.refused = v;
    }

    /// Sets `dry_run`.
    pub fn set_dry_run(&mut self, v: bool)
        ensures
            final(self)@ == with_dry_run(old(self)@, v),
    {
        proof {
            reveal(with_dry_run);
        }
        self.dry_run = v;
    }

    /// Sets `explain_deps`.
    pub fn set_explain_deps(&mut self, v: bool)
        ensures
            final(self)@ == with_explain_deps(old(self)@, v),
    {
        proof {
            reveal(with_explain_deps);
        }
        self.explain_deps = v;
    }

    /// Sets `dep_explanations`.
    pub fn set_dep_explanations(&mut self, v: Vec<String>)
        ensures
            final(self)@ == with_dep_explanations(old(self)@, views(v@)),
    {
        proof {
            reveal(with_dep_explanations);
        }
        self.dep_explanations = v;
    }

    /// Sets `json`.
    pub fn set_json(&mut self, v: bool)
        ensures
            final(self)@ == with_json(old(self)@, v),
    {
        proof {
            reveal(with_json);
        }
        self.json = v;
    }

    /// Sets `keep_workdir`.
    pub fn set_keep_workdir(&mut self, v: bool)
        ensures
            final(self)@ == with_keep_workdir(old(self)@, v),
    {
        proof {
            reveal(with_keep_workdir);
        }
        self.keep_workdir = v;
    }

    /// Sets `missing_deps_error`.
    pub fn set_missing_deps_error(&mut self, v: bool)
        ensures
            final(self)@ == with_missing_deps_error(old(self)@, v),
    {
        proof {
            reveal(with_missing_deps_error);
        }
        self.missing_deps_error = v;
    }

    /// Sets `conflict_mode`.
    pub fn set_conflict_mode(&mut self, v: ConflictMode)
        ensures
            final(self)@ == with_conflict_mode(old(self)@, v),
    {
        proof {
            reveal(with_conflict_mode);
        }
        self.conflict_mode = v;
    }

    /// Sets `strict_symlinks`.
    pub fn set_strict_symlinks(&mut self, v: bool)
        ensures
            final(self)@ == with_strict_symlinks(old(self)@, v),
    {
        proof {
            reveal(with_strict_symlinks);
        }
        self.strict_symlinks = v;
    }

    /// Appends to `dependencies`.
    pub fn extend_dependencies(&mut self, w: Vec<String>)
        ensures
            final(self)@ == with_dependencies(old(self)@, old(self)@.dependencies + views(w@)),
    {
        proof {
            reveal(with_dependencies);
        }
        extend_strings(&mut self.dependencies, w);
    }

    /// Sorts `dependencies` and drops repeated entries.
    pub fn sort_dependencies(&mut self)
        ensures
            final(self)@ == with_dependencies(old(self)@, final(self)@.dependencies),
            strictly_sorted(final(self)@.dependencies),
            final(self)@.dependencies.to_set() == old(self)@.dependencies.to_set(),
    {
        proof {
            reveal(with_dependencies);
        }
        let mut deps: Vec<String> = Vec::new();
        std::mem::swap(&mut deps, &mut self.dependencies);
        self.dependencies = sort_dedup(deps);
    }

    /// Appends to `not_dependencies`.
    pub fn extend_not_dependencies(&mut self, w: Vec<String>)
        ensures
            final(self)@ == with_not_dependencies(old(self)@, old(self)@.not_dependencies + views(w@)),
    {
        proof {
            reveal(with_not_dependencies);
        }
        extend_strings(&mut self.not_dependencies, w);
    }

    /// Appends to `conflicts`.
    pub fn extend_conflicts(&mut self, w: Vec<String>)
        ensures
            final(self)@ == with_conflicts(old(self)@, old(self)@.conflicts + views(w@)),
    {
        proof {
            reveal(with_conflicts);
        }
        extend_strings(&mut self.conflicts, w);
    }

    /// Appends to `replaces`.
    pub fn extend_replaces(&mut self, w: Vec<String>)
        ensures
            final(self)@ == with_replaces(old(self)@, old(self)@.replaces + views(w@)),
    {
        proof {
            reveal(with_replaces);
        }
        extend_strings(&mut self.replaces, w);
    }

    /// Appends to `provides`.
    pub fn extend_provides(&mut self, w: Vec<String>)
        ensures
            final(self)@ == with_provides(old(self)@, old(self)@.provides + views(w@)),
    {
        proof {
            reveal(with_provides);
        }
        extend_strings(&mut self.provides, w);
    }
}

} // verus!
