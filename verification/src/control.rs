//! Debian control files: `Key: value` fields, with continuation lines that
//! begin with a space or a tab.
use vstd::prelude::*;
use crate::text::{
    append, append_char, lines, owned, split_lines, string_of, to_chars, trim, trim_bounds, views,
};

verus! {

/// Field entries in the order in which their keys first appeared.
pub type Fields = Seq<(Seq<char>, Seq<char>)>;

/// The position of the entry for `k`.
pub open spec fn find_key(es: Fields, k: Seq<char>) -> Option<int>
    decreases es.len(),
{
    if es.len() == 0 {
        None
    } else if es[0].0 == k {
        Some(0)
    } else {
        match find_key(es.drop_first(), k) {
            Some(i) => Some(i + 1),
            None => None,
        }
    }
}

/// The value stored for `k`.
pub open spec fn get_field(es: Fields, k: Seq<char>) -> Option<Seq<char>> {
    match find_key(es, k) {
        Some(i) => Some(es[i].1),
        None => None,
    }
}

/// Stores `v` for `k`, replacing an earlier value.
pub open spec fn put_field(es: Fields, k: Seq<char>, v: Seq<char>) -> Fields {
    match find_key(es, k) {
        Some(i) => es.update(i, (k, v)),
        None => es.push((k, v)),
    }
}

/// The position of the first `c` in `s`.
pub open spec fn index_of(s: Seq<char>, c: char) -> Option<int>
    decreases s.len(),
{
    if s.len() == 0 {
        None
    } else if s[0] == c {
        Some(0)
    } else {
        match index_of(s.drop_first(), c) {
            Some(i) => Some(i + 1),
            None => None,
        }
    }
}

pub open spec fn is_continuation(line: Seq<char>) -> bool {
    line.len() > 0 && (line[0] == ' ' || line[0] == '\t')
}

/// The fields after reading `ls`, and the key that continuation lines extend.
pub open spec fn scan_control(ls: Seq<Seq<char>>) -> (Fields, Option<Seq<char>>)
    decreases ls.len(),
{
    if ls.len() == 0 {
        (seq![], None)
    } else {
        let (es, cur) = scan_control(ls.drop_last());
        let line = ls.last();
        if is_continuation(line) {
            match cur {
                Some(k) => match get_field(es, k) {
                    Some(v) => (put_field(es, k, v + seq!['\n'] + trim(line)), cur),
                    None => (es, cur),
                },
                None => (es, cur),
            }
        } else {
            match index_of(line, ':') {
                Some(i) => {
                    let k = trim(line.take(i));
                    (put_field(es, k, trim(line.skip(i + 1))), Some(k))
                },
                None => (es, cur),
            }
        }
    }
}

/// The fields of a control file's text.
pub open spec fn control_fields(text: Seq<char>) -> Fields {
    scan_control(lines(text)).0
}

/// The fields of a control file.
pub struct ControlFields {
    pub entries: Vec<(String, String)>,
}

impl View for ControlFields {
    type V = Fields;

    open spec fn view(&self) -> Fields {
        self.entries@.map_values(|e: (String, String)| (e.0@, e.1@))
    }
}

proof fn lemma_find_key(es: Fields, k: Seq<char>, i: int)
    requires
        0 <= i <= es.len(),
        forall|j: int| 0 <= j < i ==> (#[trigger] es[j]).0 != k,
    ensures
        i < es.len() && es[i].0 == k ==> find_key(es, k) == Some(i),
        i == es.len() ==> find_key(es, k) is None,
    decreases i,
{
    if i > 0 {
        let t = es.drop_first();
        assert forall|j: int| 0 <= j < i - 1 implies (#[trigger] t[j]).0 != k by {
            assert(t[j] == es[j + 1]);
        }
        assert(es[0].0 != k);
        lemma_find_key(t, k, i - 1);
    }
}

proof fn lemma_find_key_facts(es: Fields, k: Seq<char>)
    ensures
        match find_key(es, k) {
            Some(i) => 0 <= i < es.len() && es[i].0 == k && forall|j: int| 0 <= j < i ==> (#[trigger] es[j]).0 != k,
            None => forall|j: int| 0 <= j < es.len() ==> (#[trigger] es[j]).0 != k,
        },
    decreases es.len(),
{
    if es.len() > 0 && es[0].0 != k {
        let t = es.drop_first();
        lemma_find_key_facts(t, k);
        match find_key(t, k) {
            Some(i) => {
                assert forall|j: int| 0 <= j < i + 1 implies (#[trigger] es[j]).0 != k by {
                    if j > 0 {
                        assert(es[j] == t[j - 1]);
                    }
                }
            },
            None => {
                assert forall|j: int| 0 <= j < es.len() implies (#[trigger] es[j]).0 != k by {
                    if j > 0 {
                        assert(es[j] == t[j - 1]);
                    }
                }
            },
        }
    }
}

proof fn lemma_find_key_same(es: Fields, fs: Fields, k: Seq<char>)
    requires
        es.len() <= fs.len(),
        forall|j: int| 0 <= j < es.len() ==> ((#[trigger] es[j]).0 == k <==> fs[j].0 == k),
        find_key(es, k) is None ==> forall|j: int| es.len() <= j < fs.len() ==> (#[trigger] fs[j]).0 != k,
    ensures
        find_key(fs, k) == find_key(es, k),
{
    lemma_find_key_facts(es, k);
    match find_key(es, k) {
        Some(i) => {
            assert forall|j: int| 0 <= j < i implies (#[trigger] fs[j]).0 != k by {
                assert(es[j].0 != k);
            }
            lemma_find_key(fs, k, i);
        },
        None => {
            assert forall|j: int| 0 <= j < fs.len() implies (#[trigger] fs[j]).0 != k by {
                if j < es.len() {
                    assert(es[j].0 != k);
                }
            }
            lemma_find_key(fs, k, fs.len() as int);
        },
    }
}

/// What a read gives back of a write: after storing `v` for `k`, the value
/// of `k` is `v`, and the value of every other key is what it was.
pub proof fn lemma_get_after_put(es: Fields, k: Seq<char>, v: Seq<char>, other: Seq<char>)
    ensures
        get_field(put_field(es, k, v), k) == Some(v),
        other != k ==> get_field(put_field(es, k, v), other) == get_field(es, other),
{
    lemma_find_key_facts(es, k);
    let fs = put_field(es, k, v);
    match find_key(es, k) {
        Some(i) => {
            assert forall|j: int| 0 <= j < es.len() implies ((#[trigger] es[j]).0 == k <==> fs[j].0 == k) by {
                if j == i {
                    assert(fs[j] == (k, v));
                } else {
                    assert(fs[j] == es[j]);
                }
            }
            lemma_find_key_same(es, fs, k);
            if other != k {
                assert forall|j: int| 0 <= j < es.len() implies ((#[trigger] es[j]).0 == other <==> fs[j].0 == other) by {
                    if j != i {
                        assert(fs[j] == es[j]);
                    }
                }
                lemma_find_key_same(es, fs, other);
                lemma_find_key_facts(es, other);
                match find_key(es, other) {
                    Some(m) => {
                        assert(m != i);
                        assert(fs[m] == es[m]);
                    },
                    None => {},
                }
            }
        },
        None => {
            assert(fs == es.push((k, v)));
            lemma_find_key(fs, k, es.len() as int);
            if other != k {
                assert forall|j: int| 0 <= j < es.len() implies ((#[trigger] es[j]).0 == other <==> fs[j].0 == other) by {
                    assert(fs[j] == es[j]);
                }
                lemma_find_key_same(es, fs, other);
                lemma_find_key_facts(es, other);
                match find_key(es, other) {
                    Some(m) => {
                        assert(fs[m] == es[m]);
                    },
                    None => {},
                }
            }
        },
    }
}

/// A field line `K: v` whose key holds no `:` is read as the field `K`
/// (trimmed) with the value `v` (trimmed), even when `v` itself holds `:`:
/// the key ends at the first colon of the line. Whatever lines came before,
/// the field then has that value, and continuation lines extend that key.
pub proof fn lemma_field_line_read(ls: Seq<Seq<char>>, k: Seq<char>, v: Seq<char>)
    requires
        forall|i: int| 0 <= i < k.len() ==> #[trigger] k[i] != ':',
        !(k.len() > 0 && (k[0] == ' ' || k[0] == '\t')),
    ensures
        ({
            let line = k + seq![':'] + v;
            let (es, cur) = scan_control(ls.push(line));
            &&& get_field(es, trim(k)) == Some(trim(v))
            &&& cur == Some(trim(k))
        }),
{
    let line = k + seq![':'] + v;
    let all = ls.push(line);
    assert(all.drop_last() =~= ls);
    assert(all.last() == line);
    assert(!is_continuation(line)) by {
        if k.len() == 0 {
            assert(line[0] == ':');
        } else {
            assert(line[0] == k[0]);
        }
    }
    assert forall|j: int| 0 <= j < k.len() implies #[trigger] line[j] != ':' by {
        assert(line[j] == k[j]);
    }
    assert(line[k.len() as int] == ':');
    lemma_index_of(line, ':', k.len() as int);
    assert(line.take(k.len() as int) =~= k);
    assert(line.skip(k.len() as int + 1) =~= v);
    let (es0, cur0) = scan_control(ls);
    lemma_get_after_put(es0, trim(k), trim(v), trim(k));
}

proof fn lemma_index_of(s: Seq<char>, c: char, i: int)
    requires
        0 <= i <= s.len(),
        forall|j: int| 0 <= j < i ==> #[trigger] s[j] != c,
    ensures
        i < s.len() && s[i] == c ==> index_of(s, c) == Some(i),
        i == s.len() ==> index_of(s, c) is None,
    decreases i,
{
    if i > 0 {
        let t = s.drop_first();
        assert forall|j: int| 0 <= j < i - 1 implies #[trigger] t[j] != c by {
            assert(t[j] == s[j + 1]);
        }
        assert(s[0] != c);
        lemma_index_of(t, c, i - 1);
    }
}

/// The position of the first `c` in `v`.
pub fn position_of(v: &[char], c: char) -> (r: Option<usize>)
    ensures
        match r {
            Some(i) => index_of(v@, c) == Some(i as int) && i < v@.len(),
            None => index_of(v@, c) is None,
        },
{
    let mut i: usize = 0;
    while i < v.len()
        invariant
            0 <= i <= v@.len(),
            forall|j: int| 0 <= j < i ==> #[trigger] v@[j] != c,
        decreases v.len() - i,
    {
        if v[i] == c {
            proof {
                lemma_index_of(v@, c, i as int);
            }
            return Some(i);
        }
        i += 1;
    }
    proof {
        lemma_index_of(v@, c, i as int);
    }
    None
}

impl ControlFields {
    pub fn new() -> (r: ControlFields)
        ensures
            r@ == Seq::<(Seq<char>, Seq<char>)>::empty(),
    {
        let r = ControlFields { entries: Vec::new() };
        assert(r@ =~= Seq::<(Seq<char>, Seq<char>)>::empty());
        r
    }

    fn position(&self, key: &String) -> (r: Option<usize>)
        ensures
            match r {
                Some(i) => find_key(self@, key@) == Some(i as int) && i < self@.len(),
                None => find_key(self@, key@) is None,
            },
    {
        let mut i: usize = 0;
        while i < self.entries.len()
            invariant
                0 <= i <= self@.len(),
                self@.len() == self.entries@.len(),
                forall|j: int| 0 <= j < i ==> (#[trigger] self@[j]).0 != key@,
            decreases self.entries.len() - i,
        {
            if self.entries[i].0 == *key {
                assert(self@[i as int].0 == key@);
                proof {
                    lemma_find_key(self@, key@, i as int);
                }
                return Some(i);
            }
            assert(self@[i as int].0 != key@);
            i += 1;
        }
        proof {
            lemma_find_key(self@, key@, i as int);
        }
        None
    }

    /// The value of field `key`.
    pub fn get(&self, key: &str) -> (r: Option<String>)
        ensures
            match r {
                Some(v) => get_field(self@, key@) == Some(v@),
                None => get_field(self@, key@) is None,
            },
    {
        let k = owned(key);
        match self.position(&k) {
            Some(i) => Some(self.entries[i].1.clone()),
            None => None,
        }
    }

    /// Stores `value` for `key`, replacing an earlier value.
    pub fn insert(&mut self, key: String, value: String)
        ensures
            final(self)@ == put_field(old(self)@, key@, value@),
    {
        match self.position(&key) {
            Some(i) => {
                let ghost kv = (key@, value@);
                self.entries.set(i, (key, value));
                assert(self@ =~= old(self)@.update(i as int, kv));
            },
            None => {
                let ghost kv = (key@, value@);
                self.entries.push((key, value));
                assert(self@ =~= old(self)@.push(kv));
            },
        }
    }
}

/// Parses the text of a Debian control file into its fields.
pub fn parse_control(text: &str) -> (r: ControlFields)
    ensures
        r@ == control_fields(text@),
{
    let ls = split_lines(text);
    let ghost lv = views(ls@);
    let mut fields = ControlFields::new();
    let mut current: Option<String> = None;
    let mut i: usize = 0;
    while i < ls.len()
        invariant
            0 <= i <= ls@.len(),
            lv == views(ls@),
            lv == lines(text@),
            fields@ == scan_control(lv.take(i as int)).0,
            match current {
                Some(k) => scan_control(lv.take(i as int)).1 == Some(k@),
                None => scan_control(lv.take(i as int)).1 is None,
            },
        decreases ls.len() - i,
    {
        let ghost before = lv.take(i as int);
        assert(lv.take(i + 1).drop_last() =~= before);
        let line = to_chars(ls[i].as_str());
        assert(lv.take(i + 1).last() == line@);
        if line.len() > 0 && (line[0] == ' ' || line[0] == '\t') {
            match &current {
                Some(k) => {
                    match fields.get(k.as_str()) {
                        Some(v) => {
                            let mut nv = v;
                            append_char(&mut nv, '\n');
                            let (a, b) = trim_bounds(&line, 0, line.len());
                            assert(line@.subrange(0, line@.len() as int) =~= line@);
                            let t = string_of(&line, a, b);
                            append(&mut nv, t.as_str());
                            assert(nv@ == v@ + seq!['\n'] + trim(line@));
                            fields.insert(k.clone(), nv);
                            assert(is_continuation(lv.take(i + 1).last()));
                        },
                        None => {},
                    }
                },
                None => {},
            }
        } else {
            match position_of(&line, ':') {
                Some(c) => {
                    let (a, b) = trim_bounds(&line, 0, c);
                    let (x, y) = trim_bounds(&line, c + 1, line.len());
                    assert(line@.subrange(0, c as int) =~= line@.take(c as int));
                    assert(line@.subrange(c + 1, line@.len() as int) =~= line@.skip(c + 1));
                    let key = string_of(&line, a, b);
                    let value = string_of(&line, x, y);
                    let kc = key.clone();
                    fields.insert(key, value);
                    current = Some(kc);
                    assert(!is_continuation(lv.take(i + 1).last()));
                },
                None => {},
            }
        }
        i += 1;
    }
    assert(lv.take(i as int) =~= lv);
    fields
}

} // verus!
