//! Package metadata: the name, version, revision, architecture and
//! descriptions of the package to build, taken from the control file and the
//! settings that override it.
use vstd::prelude::*;
use crate::config::Config;
use crate::control::{get_field, ControlFields, Fields};
use crate::text::{
    concat3, is_alnum, is_digit, is_ws, lines, opt_view, owned, str_eq, string_from, to_chars,
    trim, trim_str,
};

verus! {

/// The metadata of the package to build.
#[derive(Debug)]
pub struct PackageMeta {
    pub name: String,
    pub version: String,
    pub revision: String,
    pub arch: String,
    pub license: String,
    pub maintainer: String,
    pub short_desc: String,
    pub long_desc: String,
}

pub open spec fn pkgname_char(c: char) -> bool {
    is_alnum(c) || c == '+' || c == '-' || c == '_' || c == '.'
}

/// A package name: not empty, of ASCII letters, digits and `+ - _ .`.
pub open spec fn valid_pkgname(s: Seq<char>) -> bool {
    s.len() > 0 && forall|i: int| 0 <= i < s.len() ==> pkgname_char(#[trigger] s[i])
}

/// A version: not empty and without whitespace.
pub open spec fn valid_version(s: Seq<char>) -> bool {
    s.len() > 0 && forall|i: int| 0 <= i < s.len() ==> !is_ws(#[trigger] s[i])
}

pub open spec fn version_char(c: char) -> char {
    if c == '-' || c == '_' || c == '/' {
        '.'
    } else {
        c
    }
}

pub open spec fn has_digit(s: Seq<char>) -> bool {
    exists|i: int| 0 <= i < s.len() && is_digit(#[trigger] s[i])
}

/// An XBPS version: `-`, `_` and `/` become `.`; an empty version becomes
/// `0`, and a version without any digit gets a `0` appended.
pub open spec fn spec_normalize_version(s: Seq<char>) -> Seq<char> {
    let m = s.map_values(|c: char| version_char(c));
    if m.len() == 0 {
        seq!['0']
    } else if !has_digit(m) {
        m.push('0')
    } else {
        m
    }
}

/// The ASCII digits of `s`, in order.
pub open spec fn digits(s: Seq<char>) -> Seq<char>
    decreases s.len(),
{
    if s.len() == 0 {
        seq![]
    } else if is_digit(s.last()) {
        digits(s.drop_last()).push(s.last())
    } else {
        digits(s.drop_last())
    }
}

/// The XBPS architecture of a Debian architecture.
pub open spec fn xbps_arch(raw: Seq<char>) -> Option<Seq<char>> {
    if raw == "amd64"@ {
        Some("x86_64"@)
    } else if raw == "arm64"@ {
        Some("aarch64"@)
    } else if raw == "armhf"@ {
        Some("armv7l"@)
    } else if raw == "i386"@ {
        Some("i686"@)
    } else if raw == "all"@ {
        Some("noarch"@)
    } else {
        None
    }
}

/// The override if there is one, else the field, else empty.
pub open spec fn setting_or_field(o: Option<Seq<char>>, es: Fields, k: Seq<char>) -> Seq<char> {
    match o {
        Some(v) => v,
        None => match get_field(es, k) {
            Some(v) => v,
            None => seq![],
        },
    }
}

pub open spec fn first_line(s: Seq<char>) -> Seq<char> {
    if lines(s).len() > 0 {
        lines(s)[0]
    } else {
        seq![]
    }
}

pub open spec fn meta_name(cfg: Config, es: Fields) -> Seq<char> {
    setting_or_field(opt_view(cfg.name), es, "Package"@) + cfg.suffix@
}

pub open spec fn meta_raw_arch(cfg: Config, es: Fields) -> Seq<char> {
    setting_or_field(opt_view(cfg.arch), es, "Architecture"@)
}

pub open spec fn meta_version(cfg: Config, es: Fields) -> Seq<char> {
    spec_normalize_version(setting_or_field(opt_view(cfg.version), es, "Version"@))
}

pub open spec fn meta_revision(cfg: Config) -> Seq<char> {
    let d = digits(
        match cfg.revision {
            Some(r) => r@,
            None => "1"@,
        },
    );
    if d.len() == 0 {
        "1"@
    } else {
        d
    }
}

/// The first line of the description, trimmed.
pub open spec fn described_short(es: Fields) -> Seq<char> {
    match get_field(es, "Description"@) {
        Some(d) => trim(first_line(d)),
        None => seq![],
    }
}

/// The whole description.
pub open spec fn described_long(es: Fields) -> Seq<char> {
    setting_or_field(None, es, "Description"@)
}

pub open spec fn meta_short_desc(es: Fields) -> Seq<char> {
    if described_short(es).len() == 0 {
        described_long(es)
    } else {
        described_short(es)
    }
}

pub open spec fn meta_long_desc(es: Fields) -> Seq<char> {
    if described_long(es).len() == 0 {
        described_short(es)
    } else {
        described_long(es)
    }
}

/// The first check that the metadata fails, as its error message.
pub open spec fn metadata_error(cfg: Config, es: Fields) -> Option<Seq<char>> {
    let raw = meta_raw_arch(cfg, es);
    let name = meta_name(cfg, es);
    let version = meta_version(cfg, es);
    if xbps_arch(raw) is None {
        Some("Invalid arch: "@ + raw + ". Use '--arch=...' to set arch manually."@)
    } else if !valid_pkgname(name) {
        Some("Invalid package name '"@ + name + "'"@)
    } else if described_short(es).len() == 0 && described_long(es).len() == 0 {
        Some("Neither long_desc nor short_desc provided by package"@)
    } else if !valid_version(version) {
        Some("Invalid package version '"@ + version + "'"@)
    } else {
        None
    }
}

/// Checks a package name.
pub fn validate_pkgname(name: &str) -> (r: Result<(), String>)
    ensures
        match r {
            Ok(()) => valid_pkgname(name@),
            Err(e) => !valid_pkgname(name@) && e@ == "Invalid package name '"@ + name@ + "'"@,
        },
{
    let cs = to_chars(name);
    let mut ok = cs.len() > 0;
    let mut i: usize = 0;
    while i < cs.len()
        invariant
            0 <= i <= cs@.len(),
            ok == (cs@.len() > 0 && forall|j: int| 0 <= j < i ==> pkgname_char(#[trigger] cs@[j])),
        decreases cs.len() - i,
    {
        let c = cs[i];
        let good = ('0' <= c && c <= '9') || ('a' <= c && c <= 'z') || ('A' <= c && c <= 'Z')
            || c == '+' || c == '-' || c == '_' || c == '.';
        if !good {
            ok = false;
        }
        i += 1;
    }
    if ok {
        Ok(())
    } else {
        Err(concat3("Invalid package name '", name, "'"))
    }
}

/// Checks a package version.
pub fn validate_version(version: &str) -> (r: Result<(), String>)
    ensures
        match r {
            Ok(()) => valid_version(version@),
            Err(e) => !valid_version(version@) && e@ == "Invalid package version '"@ + version@
                + "'"@,
        },
{
    let cs = to_chars(version);
    let mut ok = cs.len() > 0;
    let mut i: usize = 0;
    while i < cs.len()
        invariant
            0 <= i <= cs@.len(),
            ok == (cs@.len() > 0 && forall|j: int| 0 <= j < i ==> !is_ws(#[trigger] cs@[j])),
        decreases cs.len() - i,
    {
        if crate::text::is_whitespace(cs[i]) {
            ok = false;
        }
        i += 1;
    }
    if ok {
        Ok(())
    } else {
        Err(concat3("Invalid package version '", version, "'"))
    }
}

/// Rewrites a Debian version into one that XBPS accepts.
pub fn normalize_version(version: &str) -> (r: String)
    ensures
        r@ == spec_normalize_version(version@),
{
    let cs = to_chars(version);
    let ghost m = cs@.map_values(|c: char| version_char(c));
    let mut out: Vec<char> = Vec::new();
    let mut digit = false;
    let mut i: usize = 0;
    while i < cs.len()
        invariant
            0 <= i <= cs@.len(),
            m == cs@.map_values(|c: char| version_char(c)),
            out@ == m.take(i as int),
            digit == has_digit(m.take(i as int)),
        decreases cs.len() - i,
    {
        let c = cs[i];
        let d = if c == '-' || c == '_' || c == '/' {
            '.'
        } else {
            c
        };
        assert(d == m[i as int]);
        out.push(d);
        assert(m.take(i + 1) =~= m.take(i as int).push(d));
        if '0' <= d && d <= '9' {
            digit = true;
            assert(m.take(i + 1)[i as int] == d);
        } else {
            proof {
                if has_digit(m.take(i + 1)) {
                    let k = choose|k: int| 0 <= k < i + 1 && is_digit(#[trigger] m.take(i + 1)[k]);
                    assert(m.take(i as int)[k] == m.take(i + 1)[k]);
                }
            }
        }
        i += 1;
    }
    assert(m.take(i as int) =~= m);
    if out.len() == 0 {
        out.push('0');
        assert(out@ =~= seq!['0']);
        string_from(&out)
    } else if !digit {
        out.push('0');
        string_from(&out)
    } else {
        string_from(&out)
    }
}

/// The ASCII digits of a string.
pub fn digits_of(s: &str) -> (r: String)
    ensures
        r@ == digits(s@),
{
    let cs = to_chars(s);
    let mut out: Vec<char> = Vec::new();
    let mut i: usize = 0;
    while i < cs.len()
        invariant
            0 <= i <= cs@.len(),
            out@ == digits(cs@.take(i as int)),
        decreases cs.len() - i,
    {
        assert(cs@.take(i + 1).drop_last() =~= cs@.take(i as int));
        assert(cs@.take(i + 1).last() == cs@[i as int]);
        if '0' <= cs[i] && cs[i] <= '9' {
            out.push(cs[i]);
        }
        i += 1;
    }
    assert(cs@.take(i as int) =~= cs@);
    string_from(&out)
}

/// The XBPS architecture for a Debian one.
pub fn map_arch(raw: &str) -> (r: Option<String>)
    ensures
        opt_view(r) == xbps_arch(raw@),
{
    if str_eq(raw, "amd64") {
        Some(owned("x86_64"))
    } else if str_eq(raw, "arm64") {
        Some(owned("aarch64"))
    } else if str_eq(raw, "armhf") {
        Some(owned("armv7l"))
    } else if str_eq(raw, "i386") {
        Some(owned("i686"))
    } else if str_eq(raw, "all") {
        Some(owned("noarch"))
    } else {
        None
    }
}

fn setting_or(o: &Option<String>, fields: &ControlFields, key: &str) -> (r: String)
    ensures
        r@ == setting_or_field(opt_view(*o), fields@, key@),
{
    match o {
        Some(v) => v.clone(),
        None => match fields.get(key) {
            Some(v) => v,
            None => String::new(),
        },
    }
}

/// The metadata of the package, from the control fields and the overrides of
/// the configuration, or the message of the first check that fails.
pub fn parse_metadata(cfg: &Config, fields: &ControlFields) -> (r: Result<PackageMeta, String>)
    ensures
        match r {
            Ok(m) => {
                &&& metadata_error(*cfg, fields@) is None
                &&& m.name@ == meta_name(*cfg, fields@)
                &&& m.version@ == meta_version(*cfg, fields@)
                &&& m.revision@ == meta_revision(*cfg)
                &&& xbps_arch(meta_raw_arch(*cfg, fields@)) == Some(m.arch@)
                &&& m.license@ == setting_or_field(None, fields@, "License"@)
                &&& m.maintainer@ == setting_or_field(None, fields@, "Maintainer"@)
                &&& m.short_desc@ == meta_short_desc(fields@)
                &&& m.long_desc@ == meta_long_desc(fields@)
            },
            Err(e) => metadata_error(*cfg, fields@) == Some(e@),
        },
{
    let mut name = setting_or(&cfg.name, fields, "Package");
    crate::text::append(&mut name, cfg.suffix.as_str());
    let version_raw = setting_or(&cfg.version, fields, "Version");
    let license = setting_or(&None, fields, "License");
    let maintainer = setting_or(&None, fields, "Maintainer");
    let mut short_desc = match fields.get("Description") {
        Some(d) => {
            let ls = crate::text::split_lines(d.as_str());
            if ls.len() > 0 {
                trim_str(ls[0].as_str())
            } else {
                String::new()
            }
        },
        None => String::new(),
    };
    let mut long_desc = setting_or(&None, fields, "Description");
    let raw_arch = setting_or(&cfg.arch, fields, "Architecture");
    let arch = match map_arch(raw_arch.as_str()) {
        Some(a) => a,
        None => {
            return Err(
                concat3(
                    "Invalid arch: ",
                    raw_arch.as_str(),
                    ". Use '--arch=...' to set arch manually.",
                ),
            );
        },
    };
    match validate_pkgname(name.as_str()) {
        Ok(()) => {},
        Err(e) => {
            return Err(e);
        },
    }
    let ghost s0 = short_desc@;
    let ghost l0 = long_desc@;
    assert(s0 == described_short(fields@));
    assert(l0 == described_long(fields@));
    if short_desc.as_str().is_empty() && long_desc.as_str().is_empty() {
        return Err(owned("Neither long_desc nor short_desc provided by package"));
    } else if short_desc.as_str().is_empty() {
        short_desc = long_desc.clone();
    } else if long_desc.as_str().is_empty() {
        long_desc = short_desc.clone();
    }
    let revision_raw = match &cfg.revision {
        Some(r) => r.clone(),
        None => owned("1"),
    };
    let version = normalize_version(version_raw.as_str());
    match validate_version(version.as_str()) {
        Ok(()) => {},
        Err(e) => {
            return Err(e);
        },
    }
    let mut revision = digits_of(revision_raw.as_str());
    if revision.as_str().is_empty() {
        revision = owned("1");
    }
    Ok(
        PackageMeta {
            name,
            version,
            revision,
            arch,
            license,
            maintainer,
            short_desc,
            long_desc,
        },
    )
}


/// A normalized version has a digit and no `-`, `_` or `/`, and normalizing
/// it again leaves it as it is.
pub proof fn lemma_normalize_version_idempotent(v: Seq<char>)
    ensures
        has_digit(spec_normalize_version(v)),
        forall|i: int|
            0 <= i < spec_normalize_version(v).len() ==> version_char(
                #[trigger] spec_normalize_version(v)[i],
            ) == spec_normalize_version(v)[i],
        spec_normalize_version(spec_normalize_version(v)) == spec_normalize_version(v),
{
    let m = v.map_values(|c: char| version_char(c));
    let n = spec_normalize_version(v);
    if m.len() == 0 {
        assert(is_digit(n[0]));
    } else if !has_digit(m) {
        assert(is_digit(n[n.len() - 1]));
    }
    assert forall|i: int| 0 <= i < n.len() implies version_char(#[trigger] n[i]) == n[i] by {
        if i < m.len() {
            assert(n[i] == m[i]);
        }
    }
    let m2 = n.map_values(|c: char| version_char(c));
    assert(m2 =~= n);
}

/// Metadata that passes its checks is valid: the name is a valid package
/// name, the version a valid version, the architecture one that XBPS knows,
/// the revision a non-empty string of digits, and both descriptions are
/// non-empty.
pub proof fn lemma_accepted_metadata_valid(cfg: Config, es: Fields)
    requires
        metadata_error(cfg, es) is None,
    ensures
        valid_pkgname(meta_name(cfg, es)),
        valid_version(meta_version(cfg, es)),
        xbps_arch(meta_raw_arch(cfg, es)) is Some,
        meta_revision(cfg).len() > 0,
        forall|i: int| 0 <= i < meta_revision(cfg).len() ==> is_digit(#[trigger] meta_revision(cfg)[i]),
        meta_short_desc(es).len() > 0,
        meta_long_desc(es).len() > 0,
{
    let r = match cfg.revision {
        Some(x) => x@,
        None => "1"@,
    };
    lemma_digits_are_digits(r);
    if digits(r).len() == 0 {
        reveal_strlit("1");
    }
}

proof fn lemma_digits_are_digits(s: Seq<char>)
    ensures
        forall|i: int| 0 <= i < digits(s).len() ==> is_digit(#[trigger] digits(s)[i]),
    decreases s.len(),
{
    if s.len() > 0 {
        lemma_digits_are_digits(s.drop_last());
        let d0 = digits(s.drop_last());
        if is_digit(s.last()) {
            assert forall|i: int| 0 <= i < digits(s).len() implies is_digit(#[trigger] digits(s)[i]) by {
                if i < d0.len() {
                    assert(digits(s)[i] == d0[i]);
                }
            }
        }
    }
}

} // verus!
