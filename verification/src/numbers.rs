//! Decimal numbers, and the metadata file that records when the shlibs list
//! was fetched.
use vstd::prelude::*;
use crate::text::{
    append, append_char, char_from_ascii, is_ascii_digit, is_digit, lines, owned, scan_lines,
    split_lines, starts_with, strip_cr, to_chars, trim, trim_str,
};

verus! {

/// The value of a decimal digit.
pub open spec fn digit_value(c: char) -> nat {
    ((c as int) - 48) as nat
}

/// The value of a string of decimal digits.
pub open spec fn digits_value(s: Seq<char>) -> nat
    decreases s.len(),
{
    if s.len() == 0 {
        0
    } else {
        digits_value(s.drop_last()) * 10 + digit_value(s.last())
    }
}

pub open spec fn all_digits(s: Seq<char>) -> bool {
    forall|i: int| 0 <= i < s.len() ==> is_digit(#[trigger] s[i])
}

/// The digits of an unsigned number as `str::parse` reads it: one leading
/// `+` is allowed.
pub open spec fn unsigned_digits(s: Seq<char>) -> Seq<char> {
    if s.len() > 0 && s[0] == '+' {
        s.drop_first()
    } else {
        s
    }
}

/// What `str::parse` gives for an unsigned type whose largest value is `max`.
pub open spec fn parse_unsigned(s: Seq<char>, max: nat) -> Option<nat> {
    let d = unsigned_digits(s);
    if d.len() > 0 && all_digits(d) && digits_value(d) <= max {
        Some(digits_value(d))
    } else {
        None
    }
}

pub open spec fn digit_char(d: nat) -> char {
    (d + 48) as char
}

/// The decimal form of `n`, without leading zeros.
pub open spec fn decimal(n: nat) -> Seq<char>
    decreases n,
{
    if n < 10 {
        seq![digit_char(n)]
    } else {
        decimal(n / 10).push(digit_char(n % 10))
    }
}

proof fn lemma_digits_prefix(d: Seq<char>, k: int)
    requires
        all_digits(d),
        0 <= k <= d.len(),
    ensures
        digits_value(d.take(k)) <= digits_value(d),
    decreases d.len() - k,
{
    if k < d.len() {
        let t = d.take(k + 1);
        assert(t.drop_last() =~= d.take(k));
        assert(is_digit(d[k]));
        lemma_digits_prefix(d, k + 1);
    } else {
        assert(d.take(k) =~= d);
    }
}

/// Reads `s` as `str::parse::<u64>` does.
pub fn parse_u64(s: &str) -> (r: Option<u64>)
    ensures
        r matches Some(v) ==> parse_unsigned(s@, u64::MAX as nat) == Some(v as nat),
        r is None ==> parse_unsigned(s@, u64::MAX as nat) is None,
{
    let cs = to_chars(s);
    let start: usize = if cs.len() > 0 && cs[0] == '+' {
        1
    } else {
        0
    };
    let ghost d = unsigned_digits(s@);
    assert(d =~= cs@.skip(start as int));
    if start >= cs.len() {
        return None;
    }
    let mut acc: u64 = 0;
    let mut i: usize = start;
    while i < cs.len()
        invariant
            start <= i <= cs@.len(),
            start < cs@.len(),
            cs@ == s@,
            d == unsigned_digits(s@),
            d == cs@.skip(start as int),
            all_digits(d.take(i - start)),
            acc as nat == digits_value(d.take(i - start)),
        decreases cs.len() - i,
    {
        let c = cs[i];
        let ghost k = i - start;
        assert(d.take(k + 1).drop_last() =~= d.take(k));
        assert(d.take(k + 1).last() == c);
        if !is_ascii_digit(c) {
            assert(!is_digit(d[k]));
            return None;
        }
        let v: u64 = (c as u32 - 48) as u64;
        assert(v as nat == digit_value(c));
        let ghost t = d.take(k + 1);
        assert(all_digits(t));
        match acc.checked_mul(10) {
            Some(m) => match m.checked_add(v) {
                Some(n) => {
                    acc = n;
                },
                None => {
                    proof {
                        if all_digits(d) {
                            lemma_digits_prefix(d, k + 1);
                        }
                    }
                    return None;
                },
            },
            None => {
                proof {
                    if all_digits(d) {
                        lemma_digits_prefix(d, k + 1);
                    }
                }
                return None;
            },
        }
        i += 1;
    }
    assert(d.take(i - start) =~= d);
    Some(acc)
}

/// Reads `s` as `str::parse::<u32>` does.
pub fn parse_u32(s: &str) -> (r: Option<u32>)
    ensures
        r matches Some(v) ==> parse_unsigned(s@, u32::MAX as nat) == Some(v as nat),
        r is None ==> parse_unsigned(s@, u32::MAX as nat) is None,
{
    match parse_u64(s) {
        Some(v) => if v <= 0xffff_ffffu64 {
            Some(v as u32)
        } else {
            None
        },
        None => None,
    }
}

/// The decimal form of `n`.
pub fn decimal_string(n: u64) -> (r: String)
    ensures
        r@ == decimal(n as nat),
    decreases n,
{
    let d = char_from_ascii((n % 10) as u32 + 48);
    let mut s = if n < 10 {
        String::new()
    } else {
        decimal_string(n / 10)
    };
    let ghost s0 = s@;
    append_char(&mut s, d);
    proof {
        if n < 10 {
            assert(s0 =~= Seq::<char>::empty());
            assert(s@ =~= seq![d]);
        }
    }
    s
}

proof fn lemma_decimal_digits(n: nat)
    ensures
        decimal(n).len() > 0,
        all_digits(decimal(n)),
        digits_value(decimal(n)) == n,
        decimal(n)[0] != '+',
    decreases n,
{
    if n >= 10 {
        lemma_decimal_digits(n / 10);
        let s = decimal(n);
        assert(s.drop_last() =~= decimal(n / 10));
        assert(forall|i: int| 0 <= i < s.len() - 1 ==> s[i] == decimal(n / 10)[i]);
        assert(digit_value(digit_char(n % 10)) == n % 10);
        assert((n / 10) * 10 + n % 10 == n);
        assert(s.last() == digit_char(n % 10));
        assert(digits_value(s) == digits_value(decimal(n / 10)) * 10 + digit_value(digit_char(n % 10)));
    } else {
        assert(decimal(n).drop_last() =~= Seq::<char>::empty());
        assert(digit_value(digit_char(n)) == n);
        assert(digits_value(decimal(n).drop_last()) == 0);
        assert(decimal(n).last() == digit_char(n));
    }
}

/// Reading the decimal form of a number gives the number back.
pub proof fn lemma_decimal_round_trip(n: nat, max: nat)
    requires
        n <= max,
    ensures
        parse_unsigned(decimal(n), max) == Some(n),
{
    lemma_decimal_digits(n);
}

/// The address that the shlibs list is fetched from.
pub const SHLIBS_URL: &'static str = "https://raw.githubusercontent.com/void-linux/void-packages/master/common/shlibs";

/// The metadata written beside the shlibs list when it is fetched at `now`.
pub open spec fn spec_shlibs_meta(url: Seq<char>, now: nat) -> Seq<char> {
    "url="@ + url + seq!['\n'] + "fetched_unix="@ + decimal(now) + seq!['\n']
}

pub fn shlibs_meta_text(now: u64) -> (r: String)
    ensures
        r@ == spec_shlibs_meta(SHLIBS_URL@, now as nat),
{
    let mut r = owned("url=");
    append(&mut r, SHLIBS_URL);
    append_char(&mut r, '\n');
    append(&mut r, "fetched_unix=");
    append(&mut r, decimal_string(now).as_str());
    append_char(&mut r, '\n');
    r
}

/// The fetch time that a line records, if it records one.
pub open spec fn line_fetched(l: Seq<char>) -> Option<nat> {
    if starts_with(l, "fetched_unix="@) {
        parse_unsigned(l.skip("fetched_unix="@.len() as int), u64::MAX as nat)
    } else {
        None
    }
}

/// The first fetch time that the lines record.
pub open spec fn first_fetched(ls: Seq<Seq<char>>) -> Option<nat>
    decreases ls.len(),
{
    if ls.len() == 0 {
        None
    } else {
        match line_fetched(ls[0]) {
            Some(t) => Some(t),
            None => first_fetched(ls.drop_first()),
        }
    }
}

proof fn lemma_first_fetched(ls: Seq<Seq<char>>, k: int)
    requires
        0 <= k <= ls.len(),
        forall|j: int| 0 <= j < k ==> (#[trigger] line_fetched(ls[j])) is None,
    ensures
        k < ls.len() && line_fetched(ls[k]) is Some ==> first_fetched(ls) == line_fetched(ls[k]),
        k == ls.len() ==> first_fetched(ls) is None,
    decreases k,
{
    if k > 0 {
        let t = ls.drop_first();
        assert forall|j: int| 0 <= j < k - 1 implies (#[trigger] line_fetched(t[j])) is None by {
            assert(t[j] == ls[j + 1]);
            assert(line_fetched(ls[j + 1]) is None);
        }
        assert(line_fetched(ls[0]) is None);
        lemma_first_fetched(t, k - 1);
    }
}

fn fetched_in_line(l: &str) -> (r: Option<u64>)
    ensures
        r matches Some(v) ==> line_fetched(l@) == Some(v as nat),
        r is None ==> line_fetched(l@) is None,
{
    let cs = to_chars(l);
    if crate::text::has_prefix(&cs, "fetched_unix=") {
        let rest = crate::text::after(&cs, "fetched_unix=");
        parse_u64(rest.as_str())
    } else {
        None
    }
}

/// The fetch time recorded in the shlibs metadata.
pub fn fetched_time(meta: &str) -> (r: Option<u64>)
    ensures
        r matches Some(v) ==> first_fetched(lines(meta@)) == Some(v as nat),
        r is None ==> first_fetched(lines(meta@)) is None,
{
    let ls = split_lines(meta);
    let ghost lv = crate::text::views(ls@);
    let mut k: usize = 0;
    while k < ls.len()
        invariant
            0 <= k <= ls@.len(),
            lv == crate::text::views(ls@),
            lv == lines(meta@),
            forall|j: int| 0 <= j < k ==> (#[trigger] line_fetched(lv[j])) is None,
        decreases ls.len() - k,
    {
        assert(lv[k as int] == ls@[k as int]@);
        match fetched_in_line(ls[k].as_str()) {
            Some(t) => {
                proof {
                    lemma_first_fetched(lv, k as int);
                }
                return Some(t);
            },
            None => {},
        }
        k += 1;
    }
    proof {
        lemma_first_fetched(lv, k as int);
    }
    None
}

/// Whether the shlibs list is older than `max_age_days` at time `now`, or
/// its metadata is missing or records no fetch time.
pub open spec fn spec_shlibs_stale(meta: Option<Seq<char>>, now: nat, max_age_days: nat) -> bool {
    match meta {
        None => true,
        Some(t) => match first_fetched(lines(t)) {
            None => true,
            Some(ts) => (if now >= ts {
                now - ts
            } else {
                0
            }) > max_age_days * 86400,
        },
    }
}

/// Decides whether the shlibs list should be synced again, from the text of
/// its metadata file (`None` when it cannot be read) and the current time.
pub fn shlibs_is_stale(meta: Option<&str>, now: u64, max_age_days: u64) -> (r: bool)
    requires
        max_age_days * 86400 <= u64::MAX,
    ensures
        r == spec_shlibs_stale(
            match meta {
                Some(t) => Some(t@),
                None => None,
            },
            now as nat,
            max_age_days as nat,
        ),
{
    match meta {
        None => true,
        Some(t) => match fetched_time(t) {
            None => true,
            Some(ts) => now.saturating_sub(ts) > max_age_days * 86400,
        },
    }
}

/// The user id that `id -u` printed, or the largest `u32` when it printed
/// none (`None` when it could not be run).
pub fn parse_uid(output: Option<&str>) -> (r: u32)
    ensures
        r == match output {
            Some(o) => match parse_unsigned(trim(o@), u32::MAX as nat) {
                Some(v) => v,
                None => u32::MAX as nat,
            },
            None => u32::MAX as nat,
        },
{
    match output {
        Some(o) => {
            let t = trim_str(o);
            match parse_u32(t.as_str()) {
                Some(v) => v,
                None => u32::MAX,
            }
        },
        None => u32::MAX,
    }
}


proof fn lemma_scan_lines_no_newline(p: Seq<char>, a: Seq<char>)
    requires
        forall|i: int| 0 <= i < a.len() ==> a[i] != '\n',
    ensures
        scan_lines(p + a) == (scan_lines(p).0, scan_lines(p).1 + a),
    decreases a.len(),
{
    if a.len() == 0 {
        assert(p + a =~= p);
        assert(scan_lines(p).1 + a =~= scan_lines(p).1);
    } else {
        lemma_scan_lines_no_newline(p, a.drop_last());
        assert((p + a).drop_last() =~= p + a.drop_last());
        assert((p + a).last() == a.last());
        assert((scan_lines(p).1 + a.drop_last()).push(a.last()) =~= scan_lines(p).1 + a);
    }
}

proof fn lemma_scan_lines_line(p: Seq<char>, a: Seq<char>)
    requires
        forall|i: int| 0 <= i < a.len() ==> a[i] != '\n',
        scan_lines(p).1.len() == 0,
    ensures
        scan_lines(p + a + seq!['\n']) == (scan_lines(p).0.push(strip_cr(a)), Seq::<char>::empty()),
{
    lemma_scan_lines_no_newline(p, a);
    let q = p + a + seq!['\n'];
    assert(q.drop_last() =~= p + a);
    assert(q.last() == '\n');
    assert(scan_lines(p).1 + a =~= a);
}

/// The staleness of the metadata written when the shlibs list is fetched at
/// time `fetched` depends only on the time elapsed since then: the list is
/// stale exactly when more than `max_age_days` days have passed.
pub proof fn lemma_synced_shlibs_freshness(fetched: nat, now: nat, max_age_days: nat)
    requires
        fetched <= u64::MAX,
    ensures
        spec_shlibs_stale(Some(spec_shlibs_meta(SHLIBS_URL@, fetched)), now, max_age_days) == ((
        if now >= fetched {
            now - fetched
        } else {
            0
        }) > max_age_days * 86400),
{
    reveal_strlit("url=");
    reveal_strlit("fetched_unix=");
    reveal_strlit("https://raw.githubusercontent.com/void-linux/void-packages/master/common/shlibs");
    let l1 = "url="@ + SHLIBS_URL@;
    let l2 = "fetched_unix="@ + decimal(fetched);
    lemma_decimal_digits(fetched);
    assert forall|i: int| 0 <= i < l2.len() implies l2[i] != '\n' by {
        if i >= 13 {
            assert(l2[i] == decimal(fetched)[i - 13]);
            assert(is_digit(decimal(fetched)[i - 13]));
        }
    }
    let e = Seq::<char>::empty();
    assert(scan_lines(e) == (Seq::<Seq<char>>::empty(), e));
    lemma_scan_lines_line(e, l1);
    assert(e + l1 =~= l1);
    let p = l1 + seq!['\n'];
    assert(e + l1 + seq!['\n'] =~= p);
    lemma_scan_lines_line(p, l2);
    let meta = spec_shlibs_meta(SHLIBS_URL@, fetched);
    assert(meta =~= p + l2 + seq!['\n']);
    assert(strip_cr(l1) == l1);
    assert(l2.last() == decimal(fetched).last());
    assert(is_digit(decimal(fetched)[decimal(fetched).len() - 1]));
    assert(strip_cr(l2) == l2);
    let ls = lines(meta);
    assert(ls =~= seq![l1, l2]);
    assert(!starts_with(l1, "fetched_unix="@)) by {
        assert(l1[0] != "fetched_unix="@[0]);
        assert(l1.take(13)[0] == l1[0]);
    }
    assert(line_fetched(l1) is None);
    assert(l2.take(13) =~= "fetched_unix="@);
    assert(l2.skip(13) =~= decimal(fetched));
    lemma_decimal_round_trip(fetched, u64::MAX as nat);
    assert(line_fetched(l2) == Some(fetched));
    assert(ls.drop_first() =~= seq![l2]);
    assert(first_fetched(ls.drop_first()) == Some(fetched));
}

} // verus!
