//! Path strings: file names, extensions, and the paths that would escape the
//! package root.
use vstd::prelude::*;
use crate::text::{append, append_char, ends_with, owned, starts_with, lines, str_ends_with, string_of, to_chars, split_lines, views};

verus! {

/// The position of the last `c` in `s`.
pub open spec fn last_index_of(s: Seq<char>, c: char) -> Option<int>
    decreases s.len(),
{
    if s.len() == 0 {
        None
    } else if s.last() == c {
        Some(s.len() - 1)
    } else {
        last_index_of(s.drop_last(), c)
    }
}

/// `s` without its last `n` extensions: each step cuts at the last `.`, and
/// the cutting stops when no `.` is left.
pub open spec fn spec_trim_extensions(s: Seq<char>, n: nat) -> Seq<char>
    decreases n,
{
    if n == 0 {
        s
    } else {
        match last_index_of(s, '.') {
            Some(i) => spec_trim_extensions(s.take(i), (n - 1) as nat),
            None => s,
        }
    }
}

proof fn lemma_last_index_of(s: Seq<char>, c: char, i: int)
    requires
        -1 <= i < s.len(),
        forall|k: int| i < k < s.len() ==> #[trigger] s[k] != c,
    ensures
        i >= 0 && s[i] == c ==> last_index_of(s, c) == Some(i),
        i == -1 ==> last_index_of(s, c) is None,
    decreases s.len(),
{
    if s.len() > 0 && s.len() - 1 != i {
        let t = s.drop_last();
        assert forall|k: int| i < k < t.len() implies #[trigger] t[k] != c by {
            assert(t[k] == s[k]);
        }
        assert(s[s.len() - 1] != c);
        lemma_last_index_of(t, c, i);
    }
}

/// What `last_index_of` gives: a position of `c` after which no `c` occurs.
pub(crate) proof fn lemma_last_index_of_facts(s: Seq<char>, c: char)
    ensures
        match last_index_of(s, c) {
            Some(i) => 0 <= i < s.len() && s[i] == c && forall|k: int| i < k < s.len() ==> #[trigger] s[k] != c,
            None => forall|k: int| 0 <= k < s.len() ==> #[trigger] s[k] != c,
        },
    decreases s.len(),
{
    if s.len() > 0 && s.last() != c {
        let t = s.drop_last();
        lemma_last_index_of_facts(t, c);
        assert(last_index_of(s, c) == last_index_of(t, c));
        match last_index_of(t, c) {
            Some(i) => {
                assert forall|k: int| i < k < s.len() implies #[trigger] s[k] != c by {
                    if k < t.len() {
                        assert(t[k] == s[k]);
                    }
                }
            },
            None => {
                assert forall|k: int| 0 <= k < s.len() implies #[trigger] s[k] != c by {
                    if k < t.len() {
                        assert(t[k] == s[k]);
                    }
                }
            },
        }
    }
}

/// The position of the last `c` in `v[..to]`.
pub fn rposition_of(v: &[char], to: usize, c: char) -> (r: Option<usize>)
    requires
        to <= v@.len(),
    ensures
        match r {
            Some(i) => last_index_of(v@.take(to as int), c) == Some(i as int) && i < to,
            None => last_index_of(v@.take(to as int), c) is None,
        },
{
    let ghost s = v@.take(to as int);
    let mut j: usize = to;
    while j > 0
        invariant
            0 <= j <= to <= v@.len(),
            s == v@.take(to as int),
            forall|k: int| j <= k < to ==> #[trigger] s[k] != c,
        decreases j,
    {
        if v[j - 1] == c {
            proof {
                lemma_last_index_of(s, c, j - 1);
            }
            return Some(j - 1);
        }
        j -= 1;
    }
    proof {
        lemma_last_index_of(s, c, -1);
    }
    None
}

/// A file name without its last `count` extensions.
pub fn trim_extensions(path: &str, count: usize) -> (r: String)
    ensures
        r@ == spec_trim_extensions(path@, count as nat),
{
    let cs = to_chars(path);
    let mut end: usize = cs.len();
    let mut k: usize = 0;
    assert(cs@.take(end as int) =~= cs@);
    while k < count
        invariant
            0 <= k <= count,
            end <= cs@.len(),
            spec_trim_extensions(cs@.take(end as int), (count - k) as nat) == spec_trim_extensions(
                cs@,
                count as nat,
            ),
        decreases count - k,
    {
        match rposition_of(&cs, end, '.') {
            Some(i) => {
                assert(cs@.take(end as int).take(i as int) =~= cs@.take(i as int));
                end = i;
            },
            None => {
                proof {
                    lemma_trim_extensions_none(cs@.take(end as int), (count - k) as nat);
                    lemma_trim_extensions_none(cs@.take(end as int), (count - k - 1) as nat);
                }
            },
        }
        k += 1;
    }
    assert(cs@.subrange(0, end as int) =~= cs@.take(end as int));
    string_of(&cs, 0, end)
}

/// Cutting `a` extensions and then `b` more is cutting `a + b` at once.
pub proof fn lemma_trim_extensions_compose(s: Seq<char>, a: nat, b: nat)
    ensures
        spec_trim_extensions(spec_trim_extensions(s, a), b) == spec_trim_extensions(s, a + b),
    decreases a,
{
    if a > 0 {
        match last_index_of(s, '.') {
            Some(i) => {
                lemma_trim_extensions_compose(s.take(i), (a - 1) as nat, b);
                assert((a - 1) as nat + b == (a + b - 1) as nat);
            },
            None => {
                lemma_trim_extensions_none(s, b);
                lemma_trim_extensions_none(s, a + b);
            },
        }
    }
}

/// The number of `c` in `s`.
pub open spec fn count_char(s: Seq<char>, c: char) -> nat
    decreases s.len(),
{
    if s.len() == 0 {
        0
    } else {
        count_char(s.drop_last(), c) + if s.last() == c {
            1nat
        } else {
            0nat
        }
    }
}

proof fn lemma_count_before_last(s: Seq<char>, c: char, i: int)
    requires
        0 <= i < s.len(),
        s[i] == c,
        forall|k: int| i < k < s.len() ==> #[trigger] s[k] != c,
    ensures
        count_char(s, c) == count_char(s.take(i), c) + 1,
    decreases s.len() - i,
{
    let t = s.drop_last();
    if s.len() - 1 == i {
        assert(t =~= s.take(i));
    } else {
        assert forall|k: int| i < k < t.len() implies #[trigger] t[k] != c by {
            assert(t[k] == s[k]);
        }
        assert(s[s.len() - 1] != c);
        lemma_count_before_last(t, c, i);
        assert(t.take(i) =~= s.take(i));
    }
}

proof fn lemma_count_none(s: Seq<char>, c: char)
    requires
        forall|k: int| 0 <= k < s.len() ==> #[trigger] s[k] != c,
    ensures
        count_char(s, c) == 0,
    decreases s.len(),
{
    if s.len() > 0 {
        let t = s.drop_last();
        assert forall|k: int| 0 <= k < t.len() implies #[trigger] t[k] != c by {
            assert(t[k] == s[k]);
        }
        assert(s[s.len() - 1] != c);
        lemma_count_none(t, c);
    }
}

/// Cutting `n` extensions keeps a prefix of the name, and removes one `.`
/// per extension cut: the result keeps all but `n` of the dots, or none when
/// there were at most `n`. Cutting none keeps the name.
pub proof fn lemma_trim_extensions_prefix(s: Seq<char>, n: nat)
    ensures
        spec_trim_extensions(s, 0) == s,
        starts_with(s, spec_trim_extensions(s, n)),
        count_char(spec_trim_extensions(s, n), '.') == if count_char(s, '.') >= n {
            (count_char(s, '.') - n) as nat
        } else {
            0nat
        },
    decreases n,
{
    let r = spec_trim_extensions(s, n);
    lemma_last_index_of_facts(s, '.');
    if n == 0 {
        assert(s.take(s.len() as int) =~= s);
    } else {
        match last_index_of(s, '.') {
            Some(i) => {
                let t = s.take(i);
                lemma_trim_extensions_prefix(t, (n - 1) as nat);
                lemma_count_before_last(s, '.', i);
                assert(s.take(r.len() as int) =~= t.take(r.len() as int));
            },
            None => {
                lemma_count_none(s, '.');
                assert(s.take(s.len() as int) =~= s);
            },
        }
    }
}

proof fn lemma_trim_extensions_none(s: Seq<char>, n: nat)
    requires
        last_index_of(s, '.') is None,
    ensures
        spec_trim_extensions(s, n) == s,
{
}

/// `s` without the trailing `/` and `/.` that a path may end with after its
/// last component.
pub open spec fn strip_path_end(s: Seq<char>) -> Seq<char>
    decreases s.len(),
{
    if s.len() > 1 && s.last() == '/' {
        strip_path_end(s.drop_last())
    } else if s.len() >= 2 && s.last() == '.' && s[s.len() - 2] == '/' {
        strip_path_end(s.drop_last())
    } else {
        s
    }
}

/// The text after the last `/`.
pub open spec fn last_part(s: Seq<char>) -> Seq<char> {
    match last_index_of(s, '/') {
        Some(i) => s.skip(i + 1),
        None => s,
    }
}

/// A file name without its extension (`Path::file_stem`): up to the last
/// `.`, unless that `.` begins the name.
pub open spec fn file_stem_of(name: Seq<char>) -> Seq<char> {
    match last_index_of(name, '.') {
        Some(i) => if i > 0 {
            name.take(i)
        } else {
            name
        },
        None => name,
    }
}

/// The path with the extension of its file name replaced by `ext`
/// (`Path::with_extension`); a path without a file name is kept as it is.
pub open spec fn spec_with_extension(p: Seq<char>, ext: Seq<char>) -> Seq<char> {
    let t = strip_path_end(p);
    let name = last_part(t);
    if name.len() == 0 || name == seq!['.'] || name == seq!['.', '.'] {
        p
    } else {
        t.take(t.len() - name.len() + file_stem_of(name).len()) + seq!['.'] + ext
    }
}

/// The path with the extension of its file name replaced by `ext`.
pub fn with_extension(path: &str, ext: &str) -> (r: String)
    ensures
        r@ == spec_with_extension(path@, ext@),
{
    let cs = to_chars(path);
    let mut end: usize = cs.len();
    assert(cs@.take(end as int) =~= cs@);
    while (end > 1 && cs[end - 1] == '/') || (end >= 2 && cs[end - 1] == '.' && cs[end - 2] == '/')
        invariant
            0 <= end <= cs@.len(),
            strip_path_end(cs@.take(end as int)) == strip_path_end(cs@),
        decreases end,
    {
        assert(cs@.take(end as int).drop_last() =~= cs@.take(end - 1));
        end -= 1;
    }
    let ghost t = cs@.take(end as int);
    assert(strip_path_end(t) == t);
    let start: usize = match rposition_of(&cs, end, '/') {
        Some(i) => i + 1,
        None => 0,
    };
    let ghost name = t.skip(start as int);
    assert(name == last_part(t)) by {
        if start == 0 {
            assert(t.skip(0) =~= t);
        }
    }
    let nl = end - start;
    let is_dot = nl == 1 && cs[start] == '.';
    let is_dotdot = nl == 2 && cs[start] == '.' && cs[start + 1] == '.';
    if nl == 0 || is_dot || is_dotdot {
        proof {
            assert(name.len() == nl);
            if nl == 1 {
                assert(is_dot == (name =~= seq!['.']));
            }
            if nl == 2 {
                assert(is_dotdot == (name =~= seq!['.', '.']));
            }
        }
        return owned(path);
    }
    proof {
        if nl == 1 {
            assert(name[0] != '.');
        }
        if nl == 2 {
            assert(name[0] != '.' || name[1] != '.');
        }
    }
    let stem_end: usize = match rposition_of(&cs, end, '.') {
        Some(i) => if i > start {
            i
        } else {
            end
        },
        None => end,
    };
    proof {
        lemma_last_index_of_facts(t, '.');
        lemma_last_index_of_facts(name, '.');
        match last_index_of(t, '.') {
            Some(i) => {
                if i >= start {
                    lemma_last_index_of(name, '.', i - start);
                    assert(name[i - start] == t[i]);
                    assert forall|k: int| i - start < k < name.len() implies #[trigger] name[k] != '.' by {
                        assert(name[k] == t[k + start]);
                    }
                    lemma_last_index_of(name, '.', i - start);
                } else {
                    assert forall|k: int| -1 < k < name.len() implies #[trigger] name[k] != '.' by {
                        assert(name[k] == t[k + start]);
                    }
                    lemma_last_index_of(name, '.', -1);
                }
            },
            None => {
                assert forall|k: int| -1 < k < name.len() implies #[trigger] name[k] != '.' by {
                    assert(name[k] == t[k + start]);
                }
                lemma_last_index_of(name, '.', -1);
            },
        }
        assert(stem_end - start == file_stem_of(name).len());
    }
    let mut r = string_of(&cs, 0, stem_end);
    assert(cs@.subrange(0, stem_end as int) =~= t.take(t.len() - name.len() + file_stem_of(name).len()));
    append_char(&mut r, '.');
    append(&mut r, ext);
    r
}

/// The segments of a path that name something: split at `/`, without empty
/// segments and without `.`.
pub open spec fn keep_segment(segs: Seq<Seq<char>>, seg: Seq<char>) -> Seq<Seq<char>> {
    if seg.len() == 0 || seg == seq!['.'] {
        segs
    } else {
        segs.push(seg)
    }
}

pub open spec fn scan_segments(s: Seq<char>) -> (Seq<Seq<char>>, Seq<char>)
    decreases s.len(),
{
    if s.len() == 0 {
        (seq![], seq![])
    } else {
        let (segs, cur) = scan_segments(s.drop_last());
        if s.last() == '/' {
            (keep_segment(segs, cur), seq![])
        } else {
            (segs, cur.push(s.last()))
        }
    }
}

pub open spec fn segments(s: Seq<char>) -> Seq<Seq<char>> {
    let (segs, cur) = scan_segments(s);
    keep_segment(segs, cur)
}

/// The last component of a path when it is a name (`Path::file_name`).
pub open spec fn spec_file_name(s: Seq<char>) -> Option<Seq<char>> {
    let segs = segments(s);
    if segs.len() == 0 || segs.last() == seq!['.', '.'] {
        None
    } else {
        Some(segs.last())
    }
}

/// A path that is absolute or climbs with `..` leaves the directory that it
/// is read against.
pub open spec fn escapes_root(s: Seq<char>) -> bool {
    (s.len() > 0 && s[0] == '/') || segments(s).contains(seq!['.', '.'])
}

fn seg_class(v: &[char], from: usize, to: usize) -> (r: u8)
    requires
        from <= to <= v@.len(),
    ensures
        ({
            let seg = v@.subrange(from as int, to as int);
            &&& r == 0 <==> (seg.len() == 0 || seg == seq!['.'])
            &&& r == 1 <==> seg == seq!['.', '.']
            &&& r == 2 <==> !(seg.len() == 0 || seg == seq!['.'] || seg == seq!['.', '.'])
        }),
{
    let ghost seg = v@.subrange(from as int, to as int);
    assert(seq!['.'].len() == 1 && seq!['.', '.'].len() == 2);
    let n = to - from;
    if n == 0 {
        0
    } else if n == 1 && v[from] == '.' {
        assert(seg =~= seq!['.']);
        0
    } else if n == 2 && v[from] == '.' && v[from + 1] == '.' {
        assert(seg =~= seq!['.', '.']);
        1
    } else {
        proof {
            if seg == seq!['.'] {
                assert(seg[0] == v@[from as int]);
            }
            if seg == seq!['.', '.'] {
                assert(seg[0] == v@[from as int] && seg[1] == v@[from + 1]);
            }
        }
        2
    }
}

/// The bounds of the segments of a path, in order.
fn segment_bounds(v: &[char]) -> (r: Vec<(usize, usize)>)
    ensures
        r@.len() == segments(v@).len(),
        forall|k: int|
            0 <= k < r@.len() ==> {
                &&& (#[trigger] r@[k]).0 <= r@[k].1 <= v@.len()
                &&& v@.subrange(r@[k].0 as int, r@[k].1 as int) == segments(v@)[k]
            },
{
    let mut out: Vec<(usize, usize)> = Vec::new();
    let mut start: usize = 0;
    let mut i: usize = 0;
    while i < v.len()
        invariant
            0 <= start <= i <= v@.len(),
            out@.len() == scan_segments(v@.take(i as int)).0.len(),
            forall|k: int|
                0 <= k < out@.len() ==> {
                    &&& (#[trigger] out@[k]).0 <= out@[k].1 <= v@.len()
                    &&& v@.subrange(out@[k].0 as int, out@[k].1 as int) == scan_segments(
                        v@.take(i as int),
                    ).0[k]
                },
            v@.subrange(start as int, i as int) == scan_segments(v@.take(i as int)).1,
        decreases v.len() - i,
    {
        assert(v@.take(i + 1).drop_last() =~= v@.take(i as int));
        assert(v@.take(i + 1).last() == v@[i as int]);
        if v[i] == '/' {
            if seg_class(v, start, i) != 0 {
                out.push((start, i));
            }
            start = i + 1;
            assert(v@.subrange(start as int, i + 1) =~= Seq::<char>::empty());
        } else {
            assert(v@.subrange(start as int, i + 1) =~= v@.subrange(start as int, i as int).push(
                v@[i as int],
            ));
        }
        i += 1;
    }
    assert(v@.take(i as int) =~= v@);
    if seg_class(v, start, i) != 0 {
        out.push((start, i));
    }
    out
}

/// The last component of a path when it is a name.
pub fn file_name(path: &str) -> (r: Option<String>)
    ensures
        crate::text::opt_view(r) == spec_file_name(path@),
{
    let v = to_chars(path);
    let b = segment_bounds(&v);
    if b.len() == 0 {
        return None;
    }
    let (x, y) = b[b.len() - 1];
    if seg_class(&v, x, y) == 1 {
        None
    } else {
        Some(string_of(&v, x, y))
    }
}

/// Whether a path is absolute or has a `..` component.
pub fn path_escapes_root(path: &str) -> (r: bool)
    ensures
        r == escapes_root(path@),
{
    let v = to_chars(path);
    if v.len() > 0 && v[0] == '/' {
        return true;
    }
    let b = segment_bounds(&v);
    let ghost segs = segments(v@);
    let mut k: usize = 0;
    while k < b.len()
        invariant
            0 <= k <= b@.len(),
            v@ == path@,
            b@.len() == segs.len(),
            segs == segments(v@),
            forall|j: int|
                0 <= j < b@.len() ==> {
                    &&& (#[trigger] b@[j]).0 <= b@[j].1 <= v@.len()
                    &&& v@.subrange(b@[j].0 as int, b@[j].1 as int) == segs[j]
                },
            forall|j: int| 0 <= j < k ==> segs[j] != seq!['.', '.'],
        decreases b.len() - k,
    {
        let (x, y) = b[k];
        if seg_class(&v, x, y) == 1 {
            assert(segs[k as int] == seq!['.', '.']);
            assert(segs.contains(seq!['.', '.']));
            return true;
        }
        k += 1;
    }
    proof {
        if segs.contains(seq!['.', '.']) {
            let j = choose|j: int| 0 <= j < segs.len() && segs[j] == seq!['.', '.'];
            assert(segs[j] != seq!['.', '.']);
        }
    }
    false
}

/// The first line of a listing that names a path escaping the root.
pub open spec fn first_escaping(ls: Seq<Seq<char>>) -> Option<Seq<char>>
    decreases ls.len(),
{
    if ls.len() == 0 {
        None
    } else if escapes_root(ls[0]) {
        Some(ls[0])
    } else {
        first_escaping(ls.drop_first())
    }
}

proof fn lemma_first_escaping(ls: Seq<Seq<char>>, k: int)
    requires
        0 <= k <= ls.len(),
        forall|j: int| 0 <= j < k ==> !escapes_root(#[trigger] ls[j]),
    ensures
        k < ls.len() && escapes_root(ls[k]) ==> first_escaping(ls) == Some(ls[k]),
        k == ls.len() ==> first_escaping(ls) is None,
    decreases k,
{
    if k > 0 {
        let t = ls.drop_first();
        assert forall|j: int| 0 <= j < k - 1 implies !escapes_root(#[trigger] t[j]) by {
            assert(t[j] == ls[j + 1]);
        }
        assert(!escapes_root(ls[0]));
        lemma_first_escaping(t, k - 1);
    }
}

/// Checks the listing of an archive (one path per line): every path must
/// stay inside the directory that the archive is unpacked into.
pub fn check_archive_listing(archive: &str, listing: &str) -> (r: Result<(), String>)
    ensures
        match r {
            Ok(()) => first_escaping(lines(listing@)) is None,
            Err(e) => exists|p: Seq<char>|
                first_escaping(lines(listing@)) == Some(p) && e@ == "archive '"@ + archive@
                    + "' contains unsafe path '"@ + p + "'"@,
        },
{
    let ls = split_lines(listing);
    let ghost lv = views(ls@);
    let mut k: usize = 0;
    while k < ls.len()
        invariant
            0 <= k <= ls@.len(),
            lv == views(ls@),
            lv == lines(listing@),
            forall|j: int| 0 <= j < k ==> !escapes_root(#[trigger] lv[j]),
        decreases ls.len() - k,
    {
        assert(lv[k as int] == ls@[k as int]@);
        if path_escapes_root(ls[k].as_str()) {
            proof {
                lemma_first_escaping(lv, k as int);
            }
            let mut m = crate::text::concat3("archive '", archive, "' contains unsafe path '");
            crate::text::append(&mut m, ls[k].as_str());
            crate::text::append(&mut m, "'");
            return Err(m);
        }
        k += 1;
    }
    proof {
        lemma_first_escaping(lv, k as int);
    }
    Ok(())
}

/// Checks the target of a symbolic link found at `path` in the package.
pub fn check_symlink_target(path: &str, target: &str) -> (r: Result<(), String>)
    ensures
        match r {
            Ok(()) => !escapes_root(target@),
            Err(e) => escapes_root(target@) && e@ == "unsafe symlink '"@ + path@ + "' -> '"@
                + target@ + "' escapes package root"@,
        },
{
    if path_escapes_root(target) {
        let mut m = crate::text::concat3("unsafe symlink '", path, "' -> '");
        crate::text::append(&mut m, target);
        crate::text::append(&mut m, "' escapes package root");
        Err(m)
    } else {
        Ok(())
    }
}

/// The first symbolic link, of `(path, target)` pairs, whose target escapes
/// the package root.
pub open spec fn first_escaping_link(links: Seq<(Seq<char>, Seq<char>)>) -> Option<(Seq<char>, Seq<char>)>
    decreases links.len(),
{
    if links.len() == 0 {
        None
    } else if escapes_root(links[0].1) {
        Some(links[0])
    } else {
        first_escaping_link(links.drop_first())
    }
}

proof fn lemma_first_escaping_link(links: Seq<(Seq<char>, Seq<char>)>, k: int)
    requires
        0 <= k <= links.len(),
        forall|j: int| 0 <= j < k ==> !escapes_root((#[trigger] links[j]).1),
    ensures
        k < links.len() && escapes_root(links[k].1) ==> first_escaping_link(links) == Some(links[k]),
        k == links.len() ==> first_escaping_link(links) is None,
    decreases k,
{
    if k > 0 {
        let t = links.drop_first();
        assert forall|j: int| 0 <= j < k - 1 implies !escapes_root((#[trigger] t[j]).1) by {
            assert(t[j] == links[j + 1]);
        }
        assert(!escapes_root(links[0].1));
        lemma_first_escaping_link(t, k - 1);
    }
}

/// Checks the symbolic links of the package, given as `(path, target)`
/// pairs: with strict checking the first link whose target escapes the
/// package root is refused; without it (`-i`) no link is checked.
pub fn validate_symlinks(strict: bool, links: &Vec<(String, String)>) -> (r: Result<(), String>)
    ensures
        !strict ==> r is Ok,
        strict ==> match first_escaping_link(links@.map_values(|l: (String, String)| (l.0@, l.1@))) {
            None => r is Ok,
            Some((p, t)) => r matches Err(e) && e@ == "unsafe symlink '"@ + p + "' -> '"@ + t
                + "' escapes package root"@,
        },
{
    if !strict {
        return Ok(());
    }
    let ghost lv = links@.map_values(|l: (String, String)| (l.0@, l.1@));
    let mut k: usize = 0;
    while k < links.len()
        invariant
            0 <= k <= links@.len(),
            strict,
            lv == links@.map_values(|l: (String, String)| (l.0@, l.1@)),
            forall|j: int| 0 <= j < k ==> !escapes_root((#[trigger] lv[j]).1),
        decreases links.len() - k,
    {
        assert(lv[k as int] == (links@[k as int].0@, links@[k as int].1@));
        match check_symlink_target(links[k].0.as_str(), links[k].1.as_str()) {
            Ok(()) => {},
            Err(e) => {
                proof {
                    lemma_first_escaping_link(lv, k as int);
                }
                return Err(e);
            },
        }
        k += 1;
    }
    proof {
        lemma_first_escaping_link(lv, k as int);
    }
    Ok(())
}

/// A file name whose extension (after a last `.` that does not begin the
/// name) is `xbps`.
pub open spec fn is_xbps_name(name: Seq<char>) -> bool {
    ends_with(name, ".xbps"@) && name.len() > ".xbps"@.len()
}

pub fn is_xbps_file_name(name: &str) -> (r: bool)
    ensures
        r == is_xbps_name(name@),
{
    let n = to_chars(name);
    let e = to_chars(".xbps");
    str_ends_with(name, ".xbps") && n.len() > e.len()
}

} // verus!
