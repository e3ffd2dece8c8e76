//! Text that the tool shows or hands to a shell: JSON string escapes, shell
//! quoting, and the package preview.
use vstd::prelude::*;
use crate::metadata::PackageMeta;
use crate::text::{append, append_char, join, join_strings, owned, to_chars, views};

verus! {

/// The JSON escape of one character.
pub open spec fn json_escape_char(c: char) -> Seq<char> {
    if c == '\\' {
        seq!['\\', '\\']
    } else if c == '"' {
        seq!['\\', '"']
    } else if c == '\n' {
        seq!['\\', 'n']
    } else if c == '\r' {
        seq!['\\', 'r']
    } else if c == '\t' {
        seq!['\\', 't']
    } else {
        seq![c]
    }
}

/// A string with backslash, quote, newline, carriage return and tab escaped.
pub open spec fn spec_json_escape(s: Seq<char>) -> Seq<char>
    decreases s.len(),
{
    if s.len() == 0 {
        seq![]
    } else {
        spec_json_escape(s.drop_last()) + json_escape_char(s.last())
    }
}

/// The character that an escape `\c` stands for.
pub open spec fn json_unescaped(c: char) -> char {
    if c == 'n' {
        '\n'
    } else if c == 'r' {
        '\r'
    } else if c == 't' {
        '\t'
    } else {
        c
    }
}

/// How a JSON reader reads the escapes that `json_escape` writes.
pub open spec fn json_unescape(e: Seq<char>) -> Seq<char>
    decreases e.len(),
{
    if e.len() == 0 {
        seq![]
    } else if e[0] == '\\' && e.len() >= 2 {
        seq![json_unescaped(e[1])] + json_unescape(e.skip(2))
    } else {
        seq![e[0]] + json_unescape(e.drop_first())
    }
}

proof fn lemma_json_escape_prepend(c: char, t: Seq<char>)
    ensures
        spec_json_escape(seq![c] + t) == json_escape_char(c) + spec_json_escape(t),
    decreases t.len(),
{
    let s = seq![c] + t;
    if t.len() == 0 {
        assert(s.drop_last() =~= Seq::<char>::empty());
        assert(spec_json_escape(s.drop_last()) =~= Seq::<char>::empty());
        assert(spec_json_escape(t) =~= Seq::<char>::empty());
        assert(json_escape_char(c) + spec_json_escape(t) =~= json_escape_char(c));
    } else {
        assert(s.drop_last() =~= seq![c] + t.drop_last());
        assert(s.last() == t.last());
        lemma_json_escape_prepend(c, t.drop_last());
        assert(spec_json_escape(s) =~= json_escape_char(c) + spec_json_escape(t));
    }
}

proof fn lemma_json_unescape_char(c: char, rest: Seq<char>)
    ensures
        json_unescape(json_escape_char(c) + rest) == seq![c] + json_unescape(rest),
{
    let e = json_escape_char(c) + rest;
    if json_escape_char(c).len() == 2 {
        assert(e.skip(2) =~= rest);
    } else {
        assert(e.drop_first() =~= rest);
    }
}

/// Reading back what `json_escape` wrote gives the string that was escaped.
pub proof fn lemma_json_escape_round_trip(s: Seq<char>)
    ensures
        json_unescape(spec_json_escape(s)) == s,
    decreases s.len(),
{
    if s.len() > 0 {
        let t = s.drop_first();
        assert(s =~= seq![s[0]] + t);
        lemma_json_escape_prepend(s[0], t);
        lemma_json_unescape_char(s[0], spec_json_escape(t));
        lemma_json_escape_round_trip(t);
    } else {
        assert(spec_json_escape(s) =~= Seq::<char>::empty());
    }
}

/// Escapes `s` for use inside a JSON string.
pub fn json_escape(s: &str) -> (r: String)
    ensures
        r@ == spec_json_escape(s@),
{
    let cs = to_chars(s);
    let mut out = String::new();
    let mut i: usize = 0;
    while i < cs.len()
        invariant
            0 <= i <= cs@.len(),
            out@ == spec_json_escape(cs@.take(i as int)),
        decreases cs.len() - i,
    {
        let c = cs[i];
        assert(cs@.take(i + 1).drop_last() =~= cs@.take(i as int));
        assert(cs@.take(i + 1).last() == c);
        let ghost o0 = out@;
        if c == '\\' {
            append_char(&mut out, '\\');
            append_char(&mut out, '\\');
        } else if c == '"' {
            append_char(&mut out, '\\');
            append_char(&mut out, '"');
        } else if c == '\n' {
            append_char(&mut out, '\\');
            append_char(&mut out, 'n');
        } else if c == '\r' {
            append_char(&mut out, '\\');
            append_char(&mut out, 'r');
        } else if c == '\t' {
            append_char(&mut out, '\\');
            append_char(&mut out, 't');
        } else {
            append_char(&mut out, c);
        }
        assert(out@ =~= o0 + json_escape_char(c));
        i += 1;
    }
    assert(cs@.take(i as int) =~= cs@);
    out
}

/// The body of a single-quoted shell word: each `'` becomes `'\''`.
pub open spec fn quote_body(s: Seq<char>) -> Seq<char>
    decreases s.len(),
{
    if s.len() == 0 {
        seq![]
    } else {
        quote_body(s.drop_last()) + quote_char(s.last())
    }
}

pub open spec fn quote_char(c: char) -> Seq<char> {
    if c == '\'' {
        seq!['\'', '\\', '\'', '\'']
    } else {
        seq![c]
    }
}

/// `s` as one single-quoted shell word.
pub open spec fn spec_shell_quote(s: Seq<char>) -> Seq<char> {
    seq!['\''] + quote_body(s) + seq!['\'']
}

/// How a POSIX shell reads quotes and backslashes in a word, starting inside
/// single quotes when `quoted` holds.
pub open spec fn sh_unquote(q: Seq<char>, quoted: bool) -> Seq<char>
    decreases q.len(),
{
    if q.len() == 0 {
        seq![]
    } else if quoted {
        if q[0] == '\'' {
            sh_unquote(q.drop_first(), false)
        } else {
            seq![q[0]] + sh_unquote(q.drop_first(), true)
        }
    } else if q[0] == '\'' {
        sh_unquote(q.drop_first(), true)
    } else if q[0] == '\\' && q.len() >= 2 {
        seq![q[1]] + sh_unquote(q.skip(2), false)
    } else {
        seq![q[0]] + sh_unquote(q.drop_first(), false)
    }
}

proof fn lemma_quote_body_prepend(c: char, t: Seq<char>)
    ensures
        quote_body(seq![c] + t) == quote_char(c) + quote_body(t),
    decreases t.len(),
{
    let s = seq![c] + t;
    if t.len() == 0 {
        assert(s.drop_last() =~= Seq::<char>::empty());
        assert(quote_body(s.drop_last()) =~= Seq::<char>::empty());
        assert(quote_body(t) =~= Seq::<char>::empty());
        assert(quote_char(c) + quote_body(t) =~= quote_char(c));
    } else {
        assert(s.drop_last() =~= seq![c] + t.drop_last());
        assert(s.last() == t.last());
        lemma_quote_body_prepend(c, t.drop_last());
        assert(quote_body(s) =~= quote_char(c) + quote_body(t));
    }
}

proof fn lemma_unquote_body(s: Seq<char>, tail: Seq<char>)
    ensures
        sh_unquote(quote_body(s) + tail, true) == s + sh_unquote(tail, true),
    decreases s.len(),
{
    if s.len() == 0 {
        assert(quote_body(s) =~= Seq::<char>::empty());
        assert(quote_body(s) + tail =~= tail);
        assert(s + sh_unquote(tail, true) =~= sh_unquote(tail, true));
    } else {
        let c = s[0];
        let t = s.drop_first();
        assert(s =~= seq![c] + t);
        lemma_quote_body_prepend(c, t);
        lemma_unquote_body(t, tail);
        let x = quote_body(t) + tail;
        let q = quote_body(s) + tail;
        assert(q =~= quote_char(c) + x);
        if c == '\'' {
            let q1 = q.drop_first();
            assert(q1 =~= seq!['\\', '\'', '\''] + x);
            assert(q1.skip(2) =~= seq!['\''] + x);
            assert((seq!['\''] + x).drop_first() =~= x);
            assert(sh_unquote(q, true) == sh_unquote(q1, false));
            assert(sh_unquote(q1, false) == seq!['\''] + sh_unquote(q1.skip(2), false));
            assert(sh_unquote(q1.skip(2), false) == sh_unquote(x, true));
        } else {
            assert(q.drop_first() =~= x);
        }
        assert(sh_unquote(q, true) =~= s + sh_unquote(tail, true));
    }
}

/// A shell reads the quoted word back as the string that was quoted.
pub proof fn lemma_shell_quote_round_trip(s: Seq<char>)
    ensures
        sh_unquote(spec_shell_quote(s), false) == s,
{
    let q = spec_shell_quote(s);
    assert(q.drop_first() =~= quote_body(s) + seq!['\'']);
    lemma_unquote_body(s, seq!['\'']);
    let e = Seq::<char>::empty();
    assert(seq!['\''].drop_first() =~= e);
    assert(sh_unquote(seq!['\''], true) == sh_unquote(e, false));
    assert(s + sh_unquote(e, false) =~= s);
}

/// `s` quoted for a POSIX shell: in single quotes, each `'` written as `'\''`.
pub fn shell_quote_str(s: &str) -> (r: String)
    ensures
        r@ == spec_shell_quote(s@),
{
    let cs = to_chars(s);
    let mut out = String::new();
    append_char(&mut out, '\'');
    let mut i: usize = 0;
    while i < cs.len()
        invariant
            0 <= i <= cs@.len(),
            out@ == seq!['\''] + quote_body(cs@.take(i as int)),
        decreases cs.len() - i,
    {
        let c = cs[i];
        assert(cs@.take(i + 1).drop_last() =~= cs@.take(i as int));
        assert(cs@.take(i + 1).last() == c);
        let ghost o0 = out@;
        if c == '\'' {
            append_char(&mut out, '\'');
            append_char(&mut out, '\\');
            append_char(&mut out, '\'');
            append_char(&mut out, '\'');
        } else {
            append_char(&mut out, c);
        }
        assert(out@ =~= o0 + quote_char(c));
        i += 1;
    }
    assert(cs@.take(i as int) =~= cs@);
    append_char(&mut out, '\'');
    out
}

/// A path quoted for a POSIX shell.
pub fn shell_quote(path: &str) -> (r: String)
    ensures
        r@ == spec_shell_quote(path@),
{
    shell_quote_str(path)
}

/// The shell command that tells whether `cmd` can be run.
pub open spec fn spec_command_probe(cmd: Seq<char>) -> Seq<char> {
    "command -v "@ + spec_shell_quote(cmd) + " >/dev/null 2>&1"@
}

pub fn command_probe(cmd: &str) -> (r: String)
    ensures
        r@ == spec_command_probe(cmd@),
{
    let mut r = owned("command -v ");
    append(&mut r, shell_quote_str(cmd).as_str());
    append(&mut r, " >/dev/null 2>&1");
    r
}

/// The shell command that runs a post-extract script.
pub fn post_extract_command(script: &str) -> (r: String)
    ensures
        r@ == ". "@ + spec_shell_quote(script@),
{
    let mut r = owned(". ");
    append(&mut r, shell_quote(script).as_str());
    r
}

/// `name-version_revision`, the name that `xbps-create` is given.
pub open spec fn spec_package_id(m: PackageMeta) -> Seq<char> {
    m.name@ + "-"@ + m.version@ + "_"@ + m.revision@
}

/// `name-version_revision.arch.xbps`, the file that `xbps-create` writes.
pub open spec fn spec_package_file(m: PackageMeta) -> Seq<char> {
    spec_package_id(m) + "."@ + m.arch@ + ".xbps"@
}

pub fn package_id(meta: &PackageMeta) -> (r: String)
    ensures
        r@ == spec_package_id(*meta),
{
    let mut r = owned(meta.name.as_str());
    append(&mut r, "-");
    append(&mut r, meta.version.as_str());
    append(&mut r, "_");
    append(&mut r, meta.revision.as_str());
    r
}

pub fn package_file(meta: &PackageMeta) -> (r: String)
    ensures
        r@ == spec_package_file(*meta),
{
    let mut r = package_id(meta);
    append(&mut r, ".");
    append(&mut r, meta.arch.as_str());
    append(&mut r, ".xbps");
    r
}

/// A string with each newline written as `\n`.
pub open spec fn escape_newlines(s: Seq<char>) -> Seq<char>
    decreases s.len(),
{
    if s.len() == 0 {
        seq![]
    } else {
        escape_newlines(s.drop_last()) + if s.last() == '\n' {
            seq!['\\', 'n']
        } else {
            seq![s.last()]
        }
    }
}

fn newlines_escaped(s: &str) -> (r: String)
    ensures
        r@ == escape_newlines(s@),
{
    let cs = to_chars(s);
    let mut out = String::new();
    let mut i: usize = 0;
    while i < cs.len()
        invariant
            0 <= i <= cs@.len(),
            out@ == escape_newlines(cs@.take(i as int)),
        decreases cs.len() - i,
    {
        let c = cs[i];
        assert(cs@.take(i + 1).drop_last() =~= cs@.take(i as int));
        assert(cs@.take(i + 1).last() == c);
        if c == '\n' {
            append_char(&mut out, '\\');
            append_char(&mut out, 'n');
        } else {
            append_char(&mut out, c);
        }
        i += 1;
    }
    assert(cs@.take(i as int) =~= cs@);
    out
}

/// A JSON line `  "key": "value"` with the value escaped, and a comma when
/// `comma` holds.
pub open spec fn json_field(key: Seq<char>, value: Seq<char>, comma: bool) -> Seq<char> {
    "  \""@ + key + "\": \""@ + spec_json_escape(value) + if comma {
        "\","@
    } else {
        "\""@
    }
}

fn json_field_line(key: &str, value: &str, comma: bool) -> (r: String)
    ensures
        r@ == json_field(key@, value@, comma),
{
    let mut r = owned("  \"");
    append(&mut r, key);
    append(&mut r, "\": \"");
    append(&mut r, json_escape(value).as_str());
    if comma {
        append(&mut r, "\",");
    } else {
        append(&mut r, "\"");
    }
    r
}

/// Each dependency as an escaped JSON string.
pub open spec fn json_strings(ds: Seq<Seq<char>>) -> Seq<Seq<char>> {
    ds.map_values(|d: Seq<char>| "\""@ + spec_json_escape(d) + "\""@)
}

/// The lines of the package preview: a JSON object when `json` holds, else
/// one `key: value` line per field.
pub open spec fn preview_lines(deps: Seq<Seq<char>>, m: PackageMeta, json: bool) -> Seq<Seq<char>> {
    if json {
        seq![
            "{"@,
            json_field("name"@, m.name@, true),
            json_field("version"@, m.version@, true),
            json_field("revision"@, m.revision@, true),
            json_field("arch"@, m.arch@, true),
            json_field("maintainer"@, m.maintainer@, true),
            json_field("license"@, m.license@, true),
            json_field("short_desc"@, m.short_desc@, true),
            json_field("long_desc"@, m.long_desc@, true),
            "  \"dependencies\": ["@ + join(json_strings(deps), ", "@) + "],"@,
            "  \"output\": \""@ + spec_json_escape(m.name@) + "-"@ + spec_json_escape(m.version@)
                + "_"@ + spec_json_escape(m.revision@) + "."@ + spec_json_escape(m.arch@)
                + ".xbps\""@,
            "}"@,
        ]
    } else {
        seq![
            "name: "@ + m.name@,
            "version: "@ + m.version@,
            "revision: "@ + m.revision@,
            "arch: "@ + m.arch@,
            "maintainer: "@ + m.maintainer@,
            "license: "@ + m.license@,
            "short_desc: "@ + m.short_desc@,
            "long_desc: "@ + escape_newlines(m.long_desc@),
            "dependencies: "@ + join(deps, " "@),
            "output: "@ + spec_package_file(m),
        ]
    }
}

fn prefixed(p: &str, s: &str) -> (r: String)
    ensures
        r@ == p@ + s@,
{
    let mut r = owned(p);
    append(&mut r, s);
    r
}

fn json_output_line(meta: &PackageMeta) -> (r: String)
    ensures
        r@ == "  \"output\": \""@ + spec_json_escape(meta.name@) + "-"@ + spec_json_escape(
            meta.version@,
        ) + "_"@ + spec_json_escape(meta.revision@) + "."@ + spec_json_escape(meta.arch@)
            + ".xbps\""@,
{
    let mut r = owned("  \"output\": \"");
    append(&mut r, json_escape(meta.name.as_str()).as_str());
    append(&mut r, "-");
    append(&mut r, json_escape(meta.version.as_str()).as_str());
    append(&mut r, "_");
    append(&mut r, json_escape(meta.revision.as_str()).as_str());
    append(&mut r, ".");
    append(&mut r, json_escape(meta.arch.as_str()).as_str());
    append(&mut r, ".xbps\"");
    r
}

fn json_dependencies_line(deps: &Vec<String>) -> (r: String)
    ensures
        r@ == "  \"dependencies\": ["@ + join(json_strings(views(deps@)), ", "@) + "],"@,
{
    let mut quoted: Vec<String> = Vec::new();
    let mut i: usize = 0;
    while i < deps.len()
        invariant
            0 <= i <= deps@.len(),
            views(quoted@) == json_strings(views(deps@).take(i as int)),
        decreases deps.len() - i,
    {
        let mut q = owned("\"");
        append(&mut q, json_escape(deps[i].as_str()).as_str());
        append(&mut q, "\"");
        let ghost qv = q@;
        let ghost q0 = views(quoted@);
        quoted.push(q);
        assert(views(quoted@) =~= q0.push(qv));
        assert(json_strings(views(deps@).take(i + 1)) =~= json_strings(views(deps@).take(i as int)).push(
            qv,
        ));
        i += 1;
    }
    assert(views(deps@).take(i as int) =~= views(deps@));
    let mut r = owned("  \"dependencies\": [");
    append(&mut r, join_strings(&quoted, ", ").as_str());
    append(&mut r, "],");
    r
}

/// The lines that preview the package that would be built.
pub fn render_package_preview(deps: &Vec<String>, meta: &PackageMeta, json: bool) -> (r: Vec<String>)
    ensures
        views(r@) == preview_lines(views(deps@), *meta, json),
{
    let mut out: Vec<String> = Vec::new();
    if json {
        out.push(owned("{"));
        out.push(json_field_line("name", meta.name.as_str(), true));
        out.push(json_field_line("version", meta.version.as_str(), true));
        out.push(json_field_line("revision", meta.revision.as_str(), true));
        out.push(json_field_line("arch", meta.arch.as_str(), true));
        out.push(json_field_line("maintainer", meta.maintainer.as_str(), true));
        out.push(json_field_line("license", meta.license.as_str(), true));
        out.push(json_field_line("short_desc", meta.short_desc.as_str(), true));
        out.push(json_field_line("long_desc", meta.long_desc.as_str(), true));
        out.push(json_dependencies_line(deps));
        out.push(json_output_line(meta));
        out.push(owned("}"));
    } else {
        out.push(prefixed("name: ", meta.name.as_str()));
        out.push(prefixed("version: ", meta.version.as_str()));
        out.push(prefixed("revision: ", meta.revision.as_str()));
        out.push(prefixed("arch: ", meta.arch.as_str()));
        out.push(prefixed("maintainer: ", meta.maintainer.as_str()));
        out.push(prefixed("license: ", meta.license.as_str()));
        out.push(prefixed("short_desc: ", meta.short_desc.as_str()));
        out.push(prefixed("long_desc: ", newlines_escaped(meta.long_desc.as_str()).as_str()));
        out.push(prefixed("dependencies: ", join_strings(deps, " ").as_str()));
        out.push(prefixed("output: ", package_file(meta).as_str()));
    }
    assert(views(out@) =~= preview_lines(views(deps@), *meta, json));
    out
}

} // verus!
