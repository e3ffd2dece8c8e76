//! Shared-library dependencies: the SONAMEs that binaries need, the packages
//! that provide them according to Void's `shlibs` list, and the dependency
//! list of the package.
use vstd::prelude::*;
use crate::config::{with_dep_explanations, with_dependencies, Config, ConfigView, HostLibc};
use crate::order::{insert_sorted, strictly_sorted};
use crate::paths::{last_index_of, rposition_of};
use crate::text::{
    append, concat3, ends_with, find_sub, find_sub_at, has_at, lines, lower, lower_seq, owned, split_lines, starts_with,
    str_ends_with, str_eq, string_of, to_chars, to_lower, views, words, words_of,
};

verus! {

/// A SONAME from the list matches a needed library: equal ignoring ASCII
/// case, or the library name followed by a `.` and more.
pub open spec fn soname_matches(soname: Seq<char>, lib: Seq<char>) -> bool {
    let so = lower_seq(soname);
    let l = lower_seq(lib);
    so == l || starts_with(so, l.push('.'))
}

/// The package that a line of the shlibs list names for `lib`.
pub open spec fn shlib_line_dep(line: Seq<char>, lib: Seq<char>) -> Option<Seq<char>> {
    let ws = words(line);
    if ws.len() >= 2 && soname_matches(ws[0], lib) {
        Some(ws[1])
    } else {
        None
    }
}

/// The package named by the first line of the list that matches `lib`.
pub open spec fn first_shlib_dep(ls: Seq<Seq<char>>, lib: Seq<char>) -> Option<Seq<char>>
    decreases ls.len(),
{
    if ls.len() == 0 {
        None
    } else {
        match shlib_line_dep(ls[0], lib) {
            Some(d) => Some(d),
            None => first_shlib_dep(ls.drop_first(), lib),
        }
    }
}

proof fn lemma_first_shlib_dep(ls: Seq<Seq<char>>, lib: Seq<char>, k: int)
    requires
        0 <= k <= ls.len(),
        forall|j: int| 0 <= j < k ==> (#[trigger] shlib_line_dep(ls[j], lib)) is None,
    ensures
        k < ls.len() && shlib_line_dep(ls[k], lib) is Some ==> first_shlib_dep(ls, lib)
            == shlib_line_dep(ls[k], lib),
        k == ls.len() ==> first_shlib_dep(ls, lib) is None,
    decreases k,
{
    if k > 0 {
        let t = ls.drop_first();
        assert forall|j: int| 0 <= j < k - 1 implies (#[trigger] shlib_line_dep(t[j], lib)) is None by {
            assert(t[j] == ls[j + 1]);
            assert(shlib_line_dep(ls[j + 1], lib) is None);
        }
        assert(shlib_line_dep(ls[0], lib) is None);
        lemma_first_shlib_dep(t, lib, k - 1);
    }
}

fn lower_chars(v: &[char]) -> (r: Vec<char>)
    ensures
        r@ == lower_seq(v@),
{
    let mut out: Vec<char> = Vec::new();
    let mut i: usize = 0;
    while i < v.len()
        invariant
            0 <= i <= v@.len(),
            out@ == lower_seq(v@.take(i as int)),
        decreases v.len() - i,
    {
        out.push(to_lower(v[i]));
        assert(lower_seq(v@.take(i + 1)) =~= lower_seq(v@.take(i as int)).push(lower(v@[i as int])));
        i += 1;
    }
    assert(v@.take(i as int) =~= v@);
    out
}

fn line_dep(line: &str, lib_lower: &Vec<char>, lib: Ghost<Seq<char>>) -> (r: Option<String>)
    requires
        lib_lower@ == lower_seq(lib@),
    ensures
        crate::text::opt_view(r) == shlib_line_dep(line@, lib@),
{
    let cs = to_chars(line);
    let ws = words_of(&cs);
    assert(crate::text::views(ws@) == words(line@));
    if ws.len() < 2 {
        return None;
    }
    assert(ws@[0]@ == words(line@)[0] && ws@[1]@ == words(line@)[1]);
    let so = lower_chars(&to_chars(ws[0].as_str()));
    let mut dotted = lib_lower.clone();
    dotted.push('.');
    assert(so@.skip(0) =~= so@);
    if crate::text::chars_eq(&so, lib_lower) || has_at(&so, 0, &dotted) {
        Some(ws[1].clone())
    } else {
        None
    }
}

fn find_in_lines(ls: &Vec<String>, lib: &str) -> (r: Option<String>)
    ensures
        crate::text::opt_view(r) == first_shlib_dep(views(ls@), lib@),
{
    let ghost lv = views(ls@);
    let lower_lib = lower_chars(&to_chars(lib));
    let mut k: usize = 0;
    while k < ls.len()
        invariant
            0 <= k <= ls@.len(),
            lv == views(ls@),
            lower_lib@ == lower_seq(lib@),
            forall|j: int| 0 <= j < k ==> (#[trigger] shlib_line_dep(lv[j], lib@)) is None,
        decreases ls.len() - k,
    {
        assert(lv[k as int] == ls@[k as int]@);
        match line_dep(ls[k].as_str(), &lower_lib, Ghost(lib@)) {
            Some(d) => {
                proof {
                    lemma_first_shlib_dep(lv, lib@, k as int);
                }
                return Some(d);
            },
            None => {},
        }
        k += 1;
    }
    proof {
        lemma_first_shlib_dep(lv, lib@, k as int);
    }
    None
}

/// The package that the shlibs list gives for the library `lib`: the second
/// word of the first line whose first word matches.
pub fn find_shlib_dep(shlibs: &str, lib: &str) -> (r: Option<String>)
    ensures
        crate::text::opt_view(r) == first_shlib_dep(lines(shlibs@), lib@),
{
    let ls = split_lines(shlibs);
    find_in_lines(&ls, lib)
}

/// A `name-version` pair split at its last `-`; without a `-`, the version
/// is `0`.
pub open spec fn spec_split_pkg_version(r: Seq<char>) -> (Seq<char>, Seq<char>) {
    match last_index_of(r, '-') {
        Some(i) => (r.take(i), r.skip(i + 1)),
        None => (r, "0"@),
    }
}

/// Splits a shlibs entry such as `glibc-2.32_1` into package and version.
pub fn split_pkg_version(rdep: &str) -> (r: (String, String))
    ensures
        (r.0@, r.1@) == spec_split_pkg_version(rdep@),
{
    let cs = to_chars(rdep);
    assert(cs@.take(cs@.len() as int) =~= cs@);
    match rposition_of(&cs, cs.len(), '-') {
        Some(i) => {
            let a = string_of(&cs, 0, i);
            let b = string_of(&cs, i + 1, cs.len());
            assert(cs@.subrange(0, i as int) =~= cs@.take(i as int));
            assert(cs@.subrange(i + 1, cs@.len() as int) =~= cs@.skip(i + 1));
            (a, b)
        },
        None => (owned(rdep), owned("0")),
    }
}

/// Whether a package belongs to the other C library than the host's.
pub open spec fn skip_for_libc(host: HostLibc, pkg: Seq<char>) -> bool {
    match host {
        HostLibc::Glibc => starts_with(pkg, "musl"@),
        HostLibc::Musl => pkg == "glibc"@ || starts_with(pkg, "glibc-"@) || starts_with(
            pkg,
            "glibc>"@,
        ),
        HostLibc::Unknown => false,
    }
}

pub fn should_skip_for_host_libc(host: HostLibc, pkg: &str) -> (r: bool)
    ensures
        r == skip_for_libc(host, pkg@),
{
    match host {
        HostLibc::Glibc => crate::text::str_starts_with(pkg, "musl"),
        HostLibc::Musl => str_eq(pkg, "glibc") || crate::text::str_starts_with(pkg, "glibc-")
            || crate::text::str_starts_with(pkg, "glibc>"),
        HostLibc::Unknown => false,
    }
}

/// The name tried when a library is not found: what comes before its first
/// `.so`, followed by `.so`.
pub open spec fn lazy_name(lib: Seq<char>) -> Seq<char> {
    match find_sub(lib, ".so"@) {
        Some(i) => lib.take(i) + ".so"@,
        None => lib + ".so"@,
    }
}

fn lazy_soname(lib: &str) -> (r: String)
    ensures
        r@ == lazy_name(lib@),
{
    let cs = to_chars(lib);
    let pat = to_chars(".so");
    match find_sub_at(&cs, &pat) {
        Some(k) => {
            let mut r = string_of(&cs, 0, k);
            assert(cs@.subrange(0, k as int) =~= cs@.take(k as int));
            append(&mut r, ".so");
            r
        },
        None => {
            let mut r = owned(lib);
            append(&mut r, ".so");
            r
        },
    }
}

/// The SONAMEs that an `objdump -p` listing names on `NEEDED` lines.
pub open spec fn needed_in(ls: Seq<Seq<char>>) -> Seq<Seq<char>>
    decreases ls.len(),
{
    if ls.len() == 0 {
        seq![]
    } else {
        let ws = words(ls.last());
        let rest = needed_in(ls.drop_last());
        if ws.len() >= 2 && ws[0] == "NEEDED"@ {
            rest.push(ws[1])
        } else {
            rest
        }
    }
}

/// Adds the libraries that an `objdump -p` listing needs to the sorted set
/// `needed`.
pub fn add_needed(needed: &mut Vec<String>, listing: &str)
    requires
        strictly_sorted(views(old(needed)@)),
    ensures
        strictly_sorted(views(final(needed)@)),
        views(final(needed)@).to_set() == views(old(needed)@).to_set() + needed_in(
            lines(listing@),
        ).to_set(),
{
    let ls = split_lines(listing);
    let ghost lv = views(ls@);
    let ghost n0 = views(needed@).to_set();
    let mut k: usize = 0;
    assert(needed_in(lv.take(0)).to_set() =~= Set::<Seq<char>>::empty());
    assert(n0 + Set::<Seq<char>>::empty() =~= n0);
    while k < ls.len()
        invariant
            0 <= k <= ls@.len(),
            lv == views(ls@),
            lv == lines(listing@),
            n0 == views(old(needed)@).to_set(),
            strictly_sorted(views(needed@)),
            views(needed@).to_set() == n0 + needed_in(lv.take(k as int)).to_set(),
        decreases ls.len() - k,
    {
        assert(lv.take(k + 1).drop_last() =~= lv.take(k as int));
        assert(lv.take(k + 1).last() == ls@[k as int]@);
        let ws = words_of(&to_chars(ls[k].as_str()));
        let ghost before = needed_in(lv.take(k as int));
        if ws.len() >= 2 && str_eq(ws[0].as_str(), "NEEDED") {
            assert(views(ws@)[0] == ws@[0]@ && views(ws@)[1] == ws@[1]@);
            let lib = ws[1].clone();
            let ghost l = lib@;
            insert_sorted(needed, lib);
            proof {
                before.lemma_push_to_set_commute(l);
                assert(n0 + before.push(l).to_set() =~= (n0 + before.to_set()).insert(l));
            }
        }
        k += 1;
    }
    assert(lv.take(k as int) =~= lv);
}

/// What became of one needed library.
pub enum LibOutcome {
    /// A file of the package itself has that name.
    Provided,
    /// No package provides it.
    Unresolved,
    /// `pkg>=version` belongs to the other C library.
    SkippedForLibc(Seq<char>),
    /// `pkg>=version` was excluded by `--not-deps`.
    SkippedByUser(Seq<char>),
    /// `pkg>=version` is a dependency.
    Dep(Seq<char>),
}

/// What resolution works from.
pub struct DepContext {
    /// The names of all files in the package's destination tree.
    pub destdir_names: Vec<String>,
    /// The lines of the shlibs list.
    pub shlibs_lines: Vec<String>,
    pub lazy_soname: bool,
    pub suffix: String,
    pub host: HostLibc,
    pub not_dependencies: Vec<String>,
}

/// The package found for `lib`, trying the lazy name when lazy matching is on.
pub open spec fn found_dep(ctx: DepContext, lib: Seq<char>) -> Option<Seq<char>> {
    let ls = views(ctx.shlibs_lines@);
    match first_shlib_dep(ls, lib) {
        Some(d) => Some(d),
        None => if ctx.lazy_soname {
            first_shlib_dep(ls, lazy_name(lib))
        } else {
            None
        },
    }
}

/// The dependency string `pkg>=version` for a shlibs entry.
pub open spec fn dep_string(ctx: DepContext, rdep: Seq<char>) -> Seq<char> {
    let (p, v) = spec_split_pkg_version(rdep);
    p + ctx.suffix@ + ">="@ + v
}

pub open spec fn dep_package(ctx: DepContext, rdep: Seq<char>) -> Seq<char> {
    spec_split_pkg_version(rdep).0 + ctx.suffix@
}

pub open spec fn resolve_lib(ctx: DepContext, lib: Seq<char>) -> LibOutcome {
    if views(ctx.destdir_names@).contains(lib) {
        LibOutcome::Provided
    } else {
        match found_dep(ctx, lib) {
            None => LibOutcome::Unresolved,
            Some(rdep) => {
                let pkg = dep_package(ctx, rdep);
                let d = dep_string(ctx, rdep);
                if skip_for_libc(ctx.host, pkg) {
                    LibOutcome::SkippedForLibc(d)
                } else if views(ctx.not_dependencies@).contains(pkg) {
                    LibOutcome::SkippedByUser(d)
                } else {
                    LibOutcome::Dep(d)
                }
            },
        }
    }
}

/// The line that explains what became of `lib`.
pub open spec fn explanation(lib: Seq<char>, o: LibOutcome) -> Seq<char> {
    match o {
        LibOutcome::Provided => lib + " -> provided by current package"@,
        LibOutcome::Unresolved => lib + " -> unresolved"@,
        LibOutcome::SkippedForLibc(d) => lib + " -> "@ + d + " skipped for host libc"@,
        LibOutcome::SkippedByUser(d) => lib + " -> "@ + d + " skipped by --not-deps"@,
        LibOutcome::Dep(d) => lib + " -> "@ + d,
    }
}

/// The warnings that resolving `lib` gives.
pub open spec fn lib_warnings(ctx: DepContext, lib: Seq<char>) -> Seq<Seq<char>> {
    if views(ctx.destdir_names@).contains(lib) {
        seq![]
    } else {
        let lazy = if first_shlib_dep(views(ctx.shlibs_lines@), lib) is None && ctx.lazy_soname {
            seq!["Unable to find dependency for "@ + lib + ", trying lazy"@]
        } else {
            seq![]
        };
        if found_dep(ctx, lib) is None {
            lazy.push("Unable to find dependency for "@ + lib)
        } else {
            lazy
        }
    }
}

pub open spec fn explanations_of(ctx: DepContext, libs: Seq<Seq<char>>) -> Seq<Seq<char>> {
    libs.map_values(|lib: Seq<char>| explanation(lib, resolve_lib(ctx, lib)))
}

pub open spec fn warnings_of(ctx: DepContext, libs: Seq<Seq<char>>) -> Seq<Seq<char>>
    decreases libs.len(),
{
    if libs.len() == 0 {
        seq![]
    } else {
        warnings_of(ctx, libs.drop_last()) + lib_warnings(ctx, libs.last())
    }
}

/// The dependencies among the outcomes, in the order of the libraries.
pub open spec fn deps_of(ctx: DepContext, libs: Seq<Seq<char>>) -> Seq<Seq<char>>
    decreases libs.len(),
{
    if libs.len() == 0 {
        seq![]
    } else {
        match resolve_lib(ctx, libs.last()) {
            LibOutcome::Dep(d) => deps_of(ctx, libs.drop_last()).push(d),
            _ => deps_of(ctx, libs.drop_last()),
        }
    }
}

/// The result of resolving the needed libraries.
pub struct Resolution {
    /// The dependencies, sorted and without repetition.
    pub deps: Vec<String>,
    /// One line per needed library, in the order of the libraries.
    pub explanations: Vec<String>,
    /// The warnings to show, in order.
    pub warnings: Vec<String>,
}

fn contains_str(v: &Vec<String>, x: &str) -> (r: bool)
    ensures
        r == views(v@).contains(x@),
{
    let ghost vv = views(v@);
    let mut k: usize = 0;
    while k < v.len()
        invariant
            0 <= k <= v@.len(),
            vv == views(v@),
            forall|j: int| 0 <= j < k ==> vv[j] != x@,
        decreases v.len() - k,
    {
        assert(vv[k as int] == v@[k as int]@);
        if str_eq(v[k].as_str(), x) {
            assert(vv.contains(x@));
            return true;
        }
        k += 1;
    }
    proof {
        if vv.contains(x@) {
            let j = choose|j: int| 0 <= j < vv.len() && vv[j] == x@;
            assert(vv[j] != x@);
        }
    }
    false
}

fn resolve_one(ctx: &DepContext, lib: &str, warnings: &mut Vec<String>) -> (r: (String, Option<
    String,
>))
    ensures
        r.0@ == explanation(lib@, resolve_lib(*ctx, lib@)),
        match resolve_lib(*ctx, lib@) {
            LibOutcome::Dep(d) => r.1 matches Some(x) && x@ == d,
            _ => r.1 is None,
        },
        views(final(warnings)@) == views(old(warnings)@) + lib_warnings(*ctx, lib@),
{
    let ghost w0 = views(warnings@);
    if contains_str(&ctx.destdir_names, lib) {
        assert(views(warnings@) =~= w0 + lib_warnings(*ctx, lib@));
        return (owned_concat(lib, " -> provided by current package"), None);
    }
    let first = find_in_lines(&ctx.shlibs_lines, lib);
    let found = match first {
        Some(d) => Some(d),
        None => {
            if ctx.lazy_soname {
                let w = concat3("Unable to find dependency for ", lib, ", trying lazy");
                let ghost wv = w@;
                warnings.push(w);
                assert(views(warnings@) =~= w0.push(wv));
                let lazy = lazy_soname(lib);
                find_in_lines(&ctx.shlibs_lines, lazy.as_str())
            } else {
                None
            }
        },
    };
    let ghost w1 = views(warnings@);
    match found {
        None => {
            let w = owned_concat("Unable to find dependency for ", lib);
            let ghost wv = w@;
            warnings.push(w);
            assert(views(warnings@) =~= w1.push(wv));
            assert(views(warnings@) =~= w0 + lib_warnings(*ctx, lib@));
            (owned_concat(lib, " -> unresolved"), None)
        },
        Some(rdep) => {
            assert(views(warnings@) =~= w0 + lib_warnings(*ctx, lib@));
            let (p, v) = split_pkg_version(rdep.as_str());
            let mut pkg = p;
            append(&mut pkg, ctx.suffix.as_str());
            let mut d = pkg.clone();
            append(&mut d, ">=");
            append(&mut d, v.as_str());
            let mut e = concat3(lib, " -> ", d.as_str());
            if should_skip_for_host_libc(ctx.host, pkg.as_str()) {
                append(&mut e, " skipped for host libc");
                (e, None)
            } else if contains_str(&ctx.not_dependencies, pkg.as_str()) {
                append(&mut e, " skipped by --not-deps");
                (e, None)
            } else {
                (e, Some(d))
            }
        },
    }
}

fn owned_concat(a: &str, b: &str) -> (r: String)
    ensures
        r@ == a@ + b@,
{
    let mut r = owned(a);
    append(&mut r, b);
    r
}

/// Resolves the needed libraries against the package's own files and the
/// shlibs list: one explanation per library, the warnings, and the set of
/// dependencies.
pub fn resolve_dependencies(needed: &Vec<String>, ctx: &DepContext) -> (r: Resolution)
    ensures
        views(r.explanations@) == explanations_of(*ctx, views(needed@)),
        views(r.warnings@) == warnings_of(*ctx, views(needed@)),
        strictly_sorted(views(r.deps@)),
        views(r.deps@).to_set() == deps_of(*ctx, views(needed@)).to_set(),
{
    let ghost nv = views(needed@);
    let mut explanations: Vec<String> = Vec::new();
    let mut warnings: Vec<String> = Vec::new();
    let mut deps: Vec<String> = Vec::new();
    let mut k: usize = 0;
    assert(explanations_of(*ctx, nv.take(0)) =~= Seq::<Seq<char>>::empty());
    assert(views(explanations@) =~= Seq::<Seq<char>>::empty());
    assert(views(warnings@) =~= Seq::<Seq<char>>::empty());
    assert(views(deps@).to_set() =~= Set::<Seq<char>>::empty());
    assert(deps_of(*ctx, nv.take(0)).to_set() =~= Set::<Seq<char>>::empty());
    while k < needed.len()
        invariant
            0 <= k <= needed@.len(),
            nv == views(needed@),
            views(explanations@) == explanations_of(*ctx, nv.take(k as int)),
            views(warnings@) == warnings_of(*ctx, nv.take(k as int)),
            strictly_sorted(views(deps@)),
            views(deps@).to_set() == deps_of(*ctx, nv.take(k as int)).to_set(),
        decreases needed.len() - k,
    {
        let lib = &needed[k];
        assert(nv[k as int] == lib@);
        assert(nv.take(k + 1).drop_last() =~= nv.take(k as int));
        assert(nv.take(k + 1).last() == lib@);
        let ghost e0 = views(explanations@);
        let ghost d0 = deps_of(*ctx, nv.take(k as int));
        let (e, d) = resolve_one(ctx, lib.as_str(), &mut warnings);
        let ghost ev = e@;
        explanations.push(e);
        assert(views(explanations@) =~= e0.push(ev));
        assert(explanations_of(*ctx, nv.take(k + 1)) =~= explanations_of(*ctx, nv.take(k as int)).push(
            ev,
        ));
        match d {
            Some(x) => {
                let ghost xv = x@;
                insert_sorted(&mut deps, x);
                proof {
                    d0.lemma_push_to_set_commute(xv);
                }
            },
            None => {},
        }
        k += 1;
    }
    assert(nv.take(k as int) =~= nv);
    Resolution { deps, explanations, warnings }
}

/// Whether some explanation reports an unresolved library.
pub open spec fn has_unresolved(es: Seq<Seq<char>>) -> bool {
    exists|i: int| 0 <= i < es.len() && ends_with(#[trigger] es[i], "-> unresolved"@)
}

/// The configuration after the resolved dependencies are added to it.
pub open spec fn with_resolution(m: ConfigView, res: Option<(Seq<Seq<char>>, Seq<Seq<char>>)>) -> ConfigView {
    match res {
        Some((deps, expl)) => with_dep_explanations(with_dependencies(m, m.dependencies + deps), expl),
        None => m,
    }
}

/// Adds the resolved dependencies, if any, to the configuration; fails when
/// unresolved libraries are errors and there is one; otherwise leaves the
/// dependency list sorted and without repetition.
pub fn finish_dependencies(cfg: &mut Config, resolved: Option<Resolution>) -> (r: Result<(), String>)
    ensures
        ({
            let res = match resolved {
                Some(x) => Some((views(x.deps@), views(x.explanations@))),
                None => None,
            };
            let m = with_resolution(old(cfg)@, res);
            match r {
                Ok(()) => {
                    &&& !(m.missing_deps_error && has_unresolved(m.dep_explanations))
                    &&& final(cfg)@ == with_dependencies(m, final(cfg)@.dependencies)
                    &&& strictly_sorted(final(cfg)@.dependencies)
                    &&& final(cfg)@.dependencies.to_set() == m.dependencies.to_set()
                },
                Err(e) => {
                    &&& m.missing_deps_error && has_unresolved(m.dep_explanations)
                    &&& final(cfg)@ == m
                    &&& e@ == "unresolved shared library dependencies found"@
                },
            }
        }),
{
    let ghost gres = match &resolved {
        Some(x) => Some((views(x.deps@), views(x.explanations@))),
        None => None,
    };
    match resolved {
        Some(res) => {
            cfg.extend_dependencies(res.deps);
            cfg.set_dep_explanations(res.explanations);
        },
        None => {},
    }
    assert(cfg@ == with_resolution(old(cfg)@, gres));
    if cfg.missing_deps_error {
        let ghost es = views(cfg.dep_explanations@);
        let ghost m = cfg@;
        let mut k: usize = 0;
        while k < cfg.dep_explanations.len()
            invariant
                0 <= k <= es.len(),
                m == cfg@,
                m == with_resolution(old(cfg)@, gres),
                gres == match resolved {
                    Some(x) => Some((views(x.deps@), views(x.explanations@))),
                    None => None,
                },
                m.missing_deps_error,
                es == m.dep_explanations,
                es == views(cfg.dep_explanations@),
                forall|j: int| 0 <= j < k ==> !ends_with(#[trigger] es[j], "-> unresolved"@),
            decreases es.len() - k,
        {
            assert(es[k as int] == cfg.dep_explanations@[k as int]@);
            if str_ends_with(cfg.dep_explanations[k].as_str(), "-> unresolved") {
                assert(has_unresolved(es));
                return Err(owned("unresolved shared library dependencies found"));
            }
            k += 1;
        }
    }
    cfg.sort_dependencies();
    Ok(())
}


/// Splitting a `name-version` entry at its last `-` loses nothing: the parts
/// joined by `-` give the entry back, and the version part has no `-`.
pub proof fn lemma_split_pkg_version_rejoins(r: Seq<char>)
    ensures
        last_index_of(r, '-') is Some ==> {
            let (p, v) = spec_split_pkg_version(r);
            &&& p + seq!['-'] + v == r
            &&& forall|i: int| 0 <= i < v.len() ==> #[trigger] v[i] != '-'
        },
        last_index_of(r, '-') is None ==> spec_split_pkg_version(r) == (r, "0"@),
{
    match last_index_of(r, '-') {
        Some(i) => {
            crate::paths::lemma_last_index_of_facts(r, '-');
            let (p, v) = spec_split_pkg_version(r);
            assert(p + seq!['-'] + v =~= r);
            assert forall|k: int| 0 <= k < v.len() implies #[trigger] v[k] != '-' by {
                assert(v[k] == r[i + 1 + k]);
            }
        },
        None => {},
    }
}

/// A dependency string made from a shlibs entry whose package belongs to the
/// host's C library and is not excluded by `--not-deps`.
pub open spec fn allowed_dep(ctx: DepContext, d: Seq<char>) -> bool {
    exists|rdep: Seq<char>|
        #![trigger dep_string(ctx, rdep)]
        {
            &&& d == dep_string(ctx, rdep)
            &&& !skip_for_libc(ctx.host, dep_package(ctx, rdep))
            &&& !views(ctx.not_dependencies@).contains(dep_package(ctx, rdep))
        }
}

/// Every dependency that resolution adds names a package that belongs to
/// the host's C library and that `--not-deps` does not exclude.
pub proof fn lemma_deps_respect_host_and_exclusions(ctx: DepContext, libs: Seq<Seq<char>>)
    ensures
        forall|k: int| 0 <= k < deps_of(ctx, libs).len() ==> allowed_dep(ctx, #[trigger] deps_of(ctx, libs)[k]),
    decreases libs.len(),
{
    if libs.len() > 0 {
        lemma_deps_respect_host_and_exclusions(ctx, libs.drop_last());
        let d0 = deps_of(ctx, libs.drop_last());
        let ds = deps_of(ctx, libs);
        assert forall|k: int| 0 <= k < ds.len() implies allowed_dep(ctx, #[trigger] ds[k]) by {
            if k < d0.len() {
                assert(ds[k] == d0[k]);
            } else {
                let lib = libs.last();
                let rdep = found_dep(ctx, lib)->0;
                assert(ds[k] == dep_string(ctx, rdep));
            }
        }
    }
}

} // verus!
