//! Decisions that depend on the host: required tools, the privilege helper,
//! the C library, Python's version, maintainer scripts, log lines and the
//! answers the user gives.
use vstd::prelude::*;
use crate::config::HostLibc;
use crate::control::{index_of, position_of};
use crate::order::{sort_dedup, strictly_sorted};
use crate::text::{
    append, concat3, find_sub, find_sub_at, is_digit, lines, lower_seq, owned, split_lines,
    split_words, str_eq, string_of, to_chars, trim, trim_str, views, words,
};

verus! {

/// The message given when a required executable is missing.
pub open spec fn missing_command_message(cmd: Seq<char>, pkg: Seq<char>) -> Seq<char> {
    "Executable '"@ + cmd + "' from package '"@ + pkg + "' not found."@
}

/// Fails when the executable `cmd`, from package `pkg`, was not `found`.
pub fn check_command(cmd: &str, pkg: &str, found: bool) -> (r: Result<(), String>)
    ensures
        found <==> r is Ok,
        r matches Err(e) ==> e@ == missing_command_message(cmd@, pkg@),
{
    if found {
        Ok(())
    } else {
        let mut e = concat3("Executable '", cmd, "' from package '");
        append(&mut e, pkg);
        append(&mut e, "' not found.");
        Err(e)
    }
}

/// The tools that a conversion needs, each with the package that provides it.
pub open spec fn spec_conversion_tools() -> Seq<(Seq<char>, Seq<char>)> {
    seq![
        ("xz"@, "xz"@),
        ("tar"@, "tar"@),
        ("curl"@, "curl"@),
        ("ar"@, "binutils"@),
        ("objdump"@, "binutils"@),
    ]
}

/// The tools that `doctor` checks: those of a conversion and XBPS's own.
pub open spec fn spec_doctor_tools() -> Seq<(Seq<char>, Seq<char>)> {
    spec_conversion_tools() + seq![
        ("xbps-create"@, "xbps"@),
        ("xbps-rindex"@, "xbps"@),
        ("xbps-install"@, "xbps"@),
    ]
}

pub open spec fn pair_views(v: Seq<(String, String)>) -> Seq<(Seq<char>, Seq<char>)> {
    v.map_values(|p: (String, String)| (p.0@, p.1@))
}

fn tool(cmd: &str, pkg: &str) -> (r: (String, String))
    ensures
        r.0@ == cmd@,
        r.1@ == pkg@,
{
    (owned(cmd), owned(pkg))
}

/// The executables a conversion needs, with their packages, in the order
/// they are checked.
pub fn conversion_tools() -> (r: Vec<(String, String)>)
    ensures
        pair_views(r@) == spec_conversion_tools(),
{
    let mut v: Vec<(String, String)> = Vec::new();
    v.push(tool("xz", "xz"));
    v.push(tool("tar", "tar"));
    v.push(tool("curl", "curl"));
    v.push(tool("ar", "binutils"));
    v.push(tool("objdump", "binutils"));
    assert(pair_views(v@) =~= spec_conversion_tools());
    v
}

/// The executables that `doctor` checks, with their packages.
pub fn doctor_tools() -> (r: Vec<(String, String)>)
    ensures
        pair_views(r@) == spec_doctor_tools(),
{
    let mut v = conversion_tools();
    let ghost v0 = pair_views(v@);
    v.push(tool("xbps-create", "xbps"));
    v.push(tool("xbps-rindex", "xbps"));
    v.push(tool("xbps-install", "xbps"));
    assert(pair_views(v@) =~= v0 + seq![
        ("xbps-create"@, "xbps"@),
        ("xbps-rindex"@, "xbps"@),
        ("xbps-install"@, "xbps"@),
    ]);
    v
}

/// The line `doctor` prints for a tool.
pub open spec fn doctor_line(t: (Seq<char>, Seq<char>), found: bool) -> Seq<char> {
    if found {
        "ok: "@ + t.0
    } else {
        "missing: "@ + t.0 + " from package "@ + t.1
    }
}

/// The lines of the tool report, and whether every tool was found.
pub fn doctor_report(tools: &Vec<(String, String)>, found: &Vec<bool>) -> (r: (Vec<String>, bool))
    requires
        tools@.len() == found@.len(),
    ensures
        r.0@.len() == tools@.len(),
        forall|i: int|
            0 <= i < tools@.len() ==> (#[trigger] r.0@[i])@ == doctor_line(
                pair_views(tools@)[i],
                found@[i],
            ),
        r.1 <==> (forall|i: int| 0 <= i < found@.len() ==> #[trigger] found@[i]),
{
    let mut out: Vec<String> = Vec::new();
    let mut ok = true;
    let mut i: usize = 0;
    while i < tools.len()
        invariant
            0 <= i <= tools@.len(),
            tools@.len() == found@.len(),
            out@.len() == i,
            forall|j: int|
                0 <= j < i ==> (#[trigger] out@[j])@ == doctor_line(
                    pair_views(tools@)[j],
                    found@[j],
                ),
            ok <==> (forall|j: int| 0 <= j < i ==> #[trigger] found@[j]),
        decreases tools.len() - i,
    {
        let (cmd, pkg) = (&tools[i].0, &tools[i].1);
        assert(pair_views(tools@)[i as int] == (cmd@, pkg@));
        if found[i] {
            out.push(concat2("ok: ", cmd.as_str()));
        } else {
            let mut l = concat3("missing: ", cmd.as_str(), " from package ");
            append(&mut l, pkg.as_str());
            out.push(l);
            ok = false;
        }
        i += 1;
    }
    (out, ok)
}

/// The helper that runs a command as root: `sudo` when it is found, else
/// `doas`.
pub fn privilege_helper(sudo_found: bool, doas_found: bool) -> (r: Result<String, String>)
    ensures
        sudo_found ==> (r matches Ok(h) && h@ == "sudo"@),
        !sudo_found && doas_found ==> (r matches Ok(h) && h@ == "doas"@),
        !sudo_found && !doas_found ==> (r matches Err(e) && e@ == "Neither sudo nor doas found"@),
{
    if sudo_found {
        Ok(owned("sudo"))
    } else if doas_found {
        Ok(owned("doas"))
    } else {
        Err(owned("Neither sudo nor doas found"))
    }
}

pub open spec fn contains_text(s: Seq<char>, p: Seq<char>) -> bool {
    find_sub(s, p) is Some
}

/// The C library of the host, from what `ldd --version` printed and whether
/// musl's dynamic loader is present.
pub open spec fn spec_host_libc(ldd_output: Seq<char>, musl_loader: bool) -> HostLibc {
    let l = lower_seq(ldd_output);
    if contains_text(l, "musl"@) {
        HostLibc::Musl
    } else if contains_text(l, "glibc"@) || contains_text(l, "gnu libc"@) || contains_text(
        l,
        "gnu c library"@,
    ) {
        HostLibc::Glibc
    } else if musl_loader {
        HostLibc::Musl
    } else {
        HostLibc::Unknown
    }
}

fn lower_string(s: &str) -> (r: Vec<char>)
    ensures
        r@ == lower_seq(s@),
{
    let cs = to_chars(s);
    let mut out: Vec<char> = Vec::new();
    let mut i: usize = 0;
    while i < cs.len()
        invariant
            0 <= i <= cs@.len(),
            out@ == lower_seq(cs@.take(i as int)),
        decreases cs.len() - i,
    {
        out.push(crate::text::to_lower(cs[i]));
        assert(lower_seq(cs@.take(i + 1)) =~= lower_seq(cs@.take(i as int)).push(
            crate::text::lower(cs@[i as int]),
        ));
        i += 1;
    }
    assert(cs@.take(i as int) =~= cs@);
    out
}

fn has_text(s: &Vec<char>, p: &str) -> (r: bool)
    ensures
        r == contains_text(s@, p@),
{
    let pc = to_chars(p);
    match find_sub_at(s, &pc) {
        Some(_) => true,
        None => false,
    }
}

/// Decides the host's C library (`ldd_output` is empty when `ldd` could not
/// be run).
pub fn detect_host_libc(ldd_output: &str, musl_loader: bool) -> (r: HostLibc)
    ensures
        r == spec_host_libc(ldd_output@, musl_loader),
{
    let l = lower_string(ldd_output);
    if has_text(&l, "musl") {
        HostLibc::Musl
    } else if has_text(&l, "glibc") || has_text(&l, "gnu libc") || has_text(&l, "gnu c library") {
        HostLibc::Glibc
    } else if musl_loader {
        HostLibc::Musl
    } else {
        HostLibc::Unknown
    }
}

/// The first word that starts with a digit.
pub open spec fn first_digit_word(ws: Seq<Seq<char>>) -> Option<Seq<char>>
    decreases ws.len(),
{
    if ws.len() == 0 {
        None
    } else if ws[0].len() > 0 && is_digit(ws[0][0]) {
        Some(ws[0])
    } else {
        first_digit_word(ws.drop_first())
    }
}

/// The text before the first `.`, or all of it.
pub open spec fn before_dot(s: Seq<char>) -> Seq<char> {
    match index_of(s, '.') {
        Some(i) => s.take(i),
        None => s,
    }
}

/// `major.minor` from what `python3 --version` prints: the first two
/// `.`-separated parts of the first word that starts with a digit.
pub open spec fn spec_python_minor(v: Seq<char>) -> Option<Seq<char>> {
    match first_digit_word(words(v)) {
        None => None,
        Some(w) => match index_of(w, '.') {
            None => None,
            Some(i) => Some(w.take(i) + "."@ + before_dot(w.skip(i + 1))),
        },
    }
}

proof fn lemma_first_digit_word(ws: Seq<Seq<char>>, k: int)
    requires
        0 <= k <= ws.len(),
        forall|j: int| 0 <= j < k ==> !(#[trigger] ws[j].len() > 0 && is_digit(ws[j][0])),
    ensures
        k < ws.len() && ws[k].len() > 0 && is_digit(ws[k][0]) ==> first_digit_word(ws) == Some(
            ws[k],
        ),
        k == ws.len() ==> first_digit_word(ws) is None,
    decreases k,
{
    if k > 0 {
        let t = ws.drop_first();
        assert forall|j: int| 0 <= j < k - 1 implies !(#[trigger] t[j].len() > 0 && is_digit(t[j][0])) by {
            assert(t[j] == ws[j + 1]);
            assert(!(ws[j + 1].len() > 0 && is_digit(ws[j + 1][0])));
        }
        assert(!(ws[0].len() > 0 && is_digit(ws[0][0])));
        lemma_first_digit_word(t, k - 1);
    }
}

/// Reads `major.minor` from the output of `python3 --version`.
pub fn parse_python_minor(version: &str) -> (r: Option<String>)
    ensures
        crate::text::opt_view(r) == spec_python_minor(version@),
{
    let ws = split_words(version);
    let ghost wv = views(ws@);
    let mut k: usize = 0;
    while k < ws.len()
        invariant
            0 <= k <= ws@.len(),
            wv == views(ws@),
            wv == words(version@),
            forall|j: int| 0 <= j < k ==> !(#[trigger] wv[j].len() > 0 && is_digit(wv[j][0])),
        decreases ws.len() - k,
    {
        let w = to_chars(ws[k].as_str());
        assert(wv[k as int] == w@);
        if w.len() > 0 && crate::text::is_ascii_digit(w[0]) {
            proof {
                lemma_first_digit_word(wv, k as int);
            }
            match position_of(&w, '.') {
                None => {
                    return None;
                },
                Some(i) => {
                    let rest = string_of(&w, i + 1, w.len());
                    let rc = to_chars(rest.as_str());
                    assert(rc@ =~= w@.skip(i + 1));
                    let minor = match position_of(&rc, '.') {
                        Some(j) => string_of(&rc, 0, j),
                        None => string_of(&rc, 0, rc.len()),
                    };
                    assert(minor@ == before_dot(rc@)) by {
                        assert(rc@.subrange(0, rc@.len() as int) =~= rc@);
                        match index_of(rc@, '.') {
                            Some(j) => {
                                assert(rc@.subrange(0, j) =~= rc@.take(j));
                            },
                            None => {},
                        }
                    }
                    let mut r = string_of(&w, 0, i);
                    assert(w@.subrange(0, i as int) =~= w@.take(i as int));
                    append(&mut r, ".");
                    append(&mut r, minor.as_str());
                    return Some(r);
                },
            }
        }
        k += 1;
    }
    proof {
        lemma_first_digit_word(wv, k as int);
    }
    None
}

/// The Python version directory name used by conflict fixes: `major.minor`
/// when it can be read, else `3`.
pub fn python_dir_version(version_output: &str) -> (r: String)
    ensures
        r@ == match spec_python_minor(version_output@) {
            Some(v) => v,
            None => "3"@,
        },
{
    match parse_python_minor(version_output) {
        Some(v) => v,
        None => owned("3"),
    }
}

/// A directory of a Debian package that Void keeps elsewhere: it is moved
/// to `dst_dir/dst_name` inside the package.
pub struct ConflictMove {
    pub src: String,
    pub dst_dir: String,
    pub dst_name: String,
}

pub open spec fn move_view(m: ConflictMove) -> (Seq<char>, Seq<char>, Seq<char>) {
    (m.src@, m.dst_dir@, m.dst_name@)
}

/// The known moves, the Python one for Python `pyver`.
pub open spec fn spec_known_moves(pyver: Seq<char>) -> Seq<(Seq<char>, Seq<char>, Seq<char>)> {
    seq![
        ("bin"@, "usr"@, "bin"@),
        ("lib"@, "usr"@, "lib"@),
        ("lib32"@, "usr"@, "lib32"@),
        ("lib64"@, "usr"@, "lib64"@),
        ("sbin"@, "usr"@, "bin"@),
        ("usr/sbin"@, "usr"@, "bin"@),
        ("usr/lib64"@, "usr"@, "lib"@),
        ("usr/lib/python3/dist-packages"@, "usr/lib/python"@ + pyver, "site-packages"@),
    ]
}

fn conflict_move(src: &str, dst_dir: &str, dst_name: &str) -> (r: ConflictMove)
    ensures
        move_view(r) == (src@, dst_dir@, dst_name@),
{
    ConflictMove { src: owned(src), dst_dir: owned(dst_dir), dst_name: owned(dst_name) }
}

/// The directories moved to fix known conflicts with Void's layout, in the
/// order they are tried.
pub fn known_conflict_moves(pyver: &str) -> (r: Vec<ConflictMove>)
    ensures
        r@.map_values(|m: ConflictMove| move_view(m)) == spec_known_moves(pyver@),
{
    let mut v: Vec<ConflictMove> = Vec::new();
    v.push(conflict_move("bin", "usr", "bin"));
    v.push(conflict_move("lib", "usr", "lib"));
    v.push(conflict_move("lib32", "usr", "lib32"));
    v.push(conflict_move("lib64", "usr", "lib64"));
    v.push(conflict_move("sbin", "usr", "bin"));
    v.push(conflict_move("usr/sbin", "usr", "bin"));
    v.push(conflict_move("usr/lib64", "usr", "lib"));
    let mut py = owned("usr/lib/python");
    append(&mut py, pyver);
    v.push(conflict_move("usr/lib/python3/dist-packages", py.as_str(), "site-packages"));
    assert(v@.map_values(|m: ConflictMove| move_view(m)) =~= spec_known_moves(pyver@));
    v
}

/// The message logged after a move.
pub fn conflict_move_message(m: &ConflictMove) -> (r: String)
    ensures
        r@ == "Moved conflict '"@ + m.src@ + "' -> '"@ + m.dst_dir@ + "/"@ + m.dst_name@ + "'"@,
{
    let mut r = concat3("Moved conflict '", m.src.as_str(), "' -> '");
    append(&mut r, m.dst_dir.as_str());
    append(&mut r, "/");
    append(&mut r, m.dst_name.as_str());
    append(&mut r, "'");
    r
}

/// Whether a confirmation answer is yes: `y`, `Y`, `yes` or `YES` around
/// whitespace.
pub open spec fn spec_affirmative(input: Seq<char>) -> bool {
    let t = trim(input);
    t == "y"@ || t == "Y"@ || t == "yes"@ || t == "YES"@
}

pub fn is_affirmative(input: &str) -> (r: bool)
    ensures
        r == spec_affirmative(input@),
{
    let t = trim_str(input);
    let s = t.as_str();
    str_eq(s, "y") || str_eq(s, "Y") || str_eq(s, "yes") || str_eq(s, "YES")
}

/// The Debian maintainer scripts, which XBPS does not run.
pub open spec fn spec_maintainer_scripts() -> Seq<Seq<char>> {
    seq!["preinst"@, "postinst"@, "prerm"@, "postrm"@, "config"@]
}

pub fn maintainer_script_names() -> (r: Vec<String>)
    ensures
        views(r@) == spec_maintainer_scripts(),
{
    let mut v: Vec<String> = Vec::new();
    v.push(owned("preinst"));
    v.push(owned("postinst"));
    v.push(owned("prerm"));
    v.push(owned("postrm"));
    v.push(owned("config"));
    assert(views(v@) =~= spec_maintainer_scripts());
    v
}

pub open spec fn maintainer_warning(script: Seq<char>) -> Seq<char> {
    "Debian maintainer script '"@ + script
        + "' is present but will not run automatically in XBPS"@
}

/// The warnings for the maintainer scripts among `present`, in the order of
/// `spec_maintainer_scripts`.
pub open spec fn maintainer_warnings(
    scripts: Seq<Seq<char>>,
    present: Seq<Seq<char>>,
) -> Seq<Seq<char>>
    decreases scripts.len(),
{
    if scripts.len() == 0 {
        seq![]
    } else {
        let rest = maintainer_warnings(scripts.drop_last(), present);
        if present.contains(scripts.last()) {
            rest.push(maintainer_warning(scripts.last()))
        } else {
            rest
        }
    }
}

fn contains_name(v: &Vec<String>, x: &str) -> (r: bool)
    ensures
        r == views(v@).contains(x@),
{
    let ghost vv = views(v@);
    let mut k: usize = 0;
    while k < v.len()
        invariant
            0 <= k <= v@.len(),
            vv == views(v@),
            forall|j: int| 0 <= j < k ==> vv[j] != x@,
        decreases v.len() - k,
    {
        assert(vv[k as int] == v@[k as int]@);
        if str_eq(v[k].as_str(), x) {
            assert(vv.contains(x@));
            return true;
        }
        k += 1;
    }
    proof {
        if vv.contains(x@) {
            let j = choose|j: int| 0 <= j < vv.len() && vv[j] == x@;
            assert(vv[j] != x@);
        }
    }
    false
}

/// The warnings for the maintainer scripts present in the control archive
/// (`present` names the scripts found there).
pub fn warn_maintainer_scripts(present: &Vec<String>) -> (r: Vec<String>)
    ensures
        views(r@) == maintainer_warnings(spec_maintainer_scripts(), views(present@)),
{
    let names = maintainer_script_names();
    let ghost nv = views(names@);
    let mut out: Vec<String> = Vec::new();
    let mut i: usize = 0;
    while i < names.len()
        invariant
            0 <= i <= names@.len(),
            nv == views(names@),
            nv == spec_maintainer_scripts(),
            views(out@) == maintainer_warnings(nv.take(i as int), views(present@)),
        decreases names.len() - i,
    {
        assert(nv.take(i + 1).drop_last() =~= nv.take(i as int));
        assert(nv.take(i + 1).last() == names@[i as int]@);
        if contains_name(present, names[i].as_str()) {
            let mut w = concat3("Debian maintainer script '", names[i].as_str(), "' is present");
            append(&mut w, " but will not run automatically in XBPS");
            let ghost wv = w@;
            let ghost o0 = views(out@);
            out.push(w);
            assert(views(out@) =~= o0.push(wv));
            assert(wv =~= maintainer_warning(names@[i as int]@)) by {
                reveal_strlit("' is present");
                reveal_strlit(" but will not run automatically in XBPS");
                reveal_strlit("' is present but will not run automatically in XBPS");
            }
        }
        i += 1;
    }
    assert(nv.take(i as int) =~= nv);
    out
}

/// The severity of a log line.
#[derive(Clone, Copy, Debug, PartialEq, Eq, Structural)]
pub enum LogLevel {
    Info,
    Warn,
    Crit,
}

/// Whether log lines are coloured: `NO_COLOR` is not set and `XDEB_COLOR` is
/// not `never`.
pub fn color_enabled(no_color_set: bool, xdeb_color: Option<&str>) -> (r: bool)
    ensures
        r == (!no_color_set && match xdeb_color {
            Some(v) => v@ != "never"@,
            None => true,
        }),
{
    !no_color_set && match xdeb_color {
        Some(v) => !str_eq(v, "never"),
        None => true,
    }
}

/// The line written to standard error for a message.
pub open spec fn spec_log_line(level: LogLevel, msg: Seq<char>, color: bool) -> Seq<char> {
    if color {
        match level {
            LogLevel::Info => "\x1b[1;36mI\x1b[0m "@ + msg + "\x1b[0m"@,
            LogLevel::Warn => "\x1b[1;33mW\x1b[0m "@ + msg + "\x1b[0m"@,
            LogLevel::Crit => "\x1b[1;31mE\x1b[0;1m "@ + msg + "\x1b[0m"@,
        }
    } else {
        match level {
            LogLevel::Info => "I "@ + msg,
            LogLevel::Warn => "W "@ + msg,
            LogLevel::Crit => "E "@ + msg,
        }
    }
}

pub fn log_line(level: LogLevel, msg: &str, color: bool) -> (r: String)
    ensures
        r@ == spec_log_line(level, msg@, color),
{
    if color {
        match level {
            LogLevel::Info => concat3("\x1b[1;36mI\x1b[0m ", msg, "\x1b[0m"),
            LogLevel::Warn => concat3("\x1b[1;33mW\x1b[0m ", msg, "\x1b[0m"),
            LogLevel::Crit => concat3("\x1b[1;31mE\x1b[0;1m ", msg, "\x1b[0m"),
        }
    } else {
        match level {
            LogLevel::Info => concat2("I ", msg),
            LogLevel::Warn => concat2("W ", msg),
            LogLevel::Crit => concat2("E ", msg),
        }
    }
}

fn concat2(a: &str, b: &str) -> (r: String)
    ensures
        r@ == a@ + b@,
{
    let mut r = owned(a);
    append(&mut r, b);
    r
}

/// Whether the first bytes of a file are the ELF magic number.
pub fn is_elf_magic(head: &[u8]) -> (r: bool)
    ensures
        r == (head@.len() >= 4 && head@[0] == 0x7f && head@[1] == 0x45 && head@[2] == 0x4c
            && head@[3] == 0x46),
{
    head.len() >= 4 && head[0] == 0x7f && head[1] == 0x45 && head[2] == 0x4c && head[3] == 0x46
}

/// The path that a line of `xbps-query -f` names: the text before ` -> `.
pub open spec fn query_line_path(l: Seq<char>) -> Seq<char> {
    match find_sub(l, " -> "@) {
        Some(i) => l.take(i),
        None => l,
    }
}

/// The paths that the installed package already owns, from `xbps-query -f`
/// output: sorted and without repetition.
pub fn owned_paths(query_output: &str) -> (r: Vec<String>)
    ensures
        strictly_sorted(views(r@)),
        views(r@).to_set() == lines(query_output@).map_values(|l: Seq<char>| query_line_path(l)).to_set(),
{
    let ls = split_lines(query_output);
    let ghost lv = views(ls@);
    let arrow = to_chars(" -> ");
    let mut ps: Vec<String> = Vec::new();
    let mut k: usize = 0;
    while k < ls.len()
        invariant
            0 <= k <= ls@.len(),
            lv == views(ls@),
            lv == lines(query_output@),
            arrow@ == " -> "@,
            views(ps@) == lv.take(k as int).map_values(|l: Seq<char>| query_line_path(l)),
        decreases ls.len() - k,
    {
        let cs = to_chars(ls[k].as_str());
        assert(lv[k as int] == cs@);
        let p = match find_sub_at(&cs, &arrow) {
            Some(i) => {
                assert(cs@.subrange(0, i as int) =~= cs@.take(i as int));
                string_of(&cs, 0, i)
            },
            None => owned(ls[k].as_str()),
        };
        let ghost pv = p@;
        let ghost p0 = views(ps@);
        ps.push(p);
        assert(views(ps@) =~= p0.push(pv));
        assert(lv.take(k + 1).map_values(|l: Seq<char>| query_line_path(l)) =~= lv.take(
            k as int,
        ).map_values(|l: Seq<char>| query_line_path(l)).push(pv));
        k += 1;
    }
    assert(lv.take(k as int) =~= lv);
    sort_dedup(ps)
}

} // verus!
