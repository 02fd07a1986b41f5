//! The package manifest (`Qaw.toml`) and lock file (`Qaw.lock`).
//!
//! The manifest is a small TOML subset: `[section]` headers and
//! `key = value` lines, with `#` comments. Dependencies are kept sorted by
//! name, so that a written manifest lists them in a stable order.
use vstd::prelude::*;
use crate::lexer::spells;
use crate::text::{
    chars_eq, chars_of, dec, find, find_char, is_ws, lead_ws, lemma_find_char_at,
    lemma_find_char_none, lemma_lead_ws_at, lemma_lead_ws_bound, lemma_trail_ws_at,
    lemma_trail_ws_bound, lines, push_chars, push_str, push_usize, slice_chars, split_lines,
    strip_cr, string_of, trail_ws, trim, trim_chars, trim_end, trim_start, views,
};

verus! {

// ---------------------------------------------------------------------
// Names in order
// ---------------------------------------------------------------------

/// Lexicographic order of character sequences by code point (the order of
/// `String`'s `Ord`, since UTF-8 preserves code point order bytewise).
pub open spec fn key_lt(a: Seq<char>, b: Seq<char>) -> bool
    decreases a.len(),
{
    if a.len() == 0 {
        b.len() > 0
    } else if b.len() == 0 {
        false
    } else if a[0] != b[0] {
        a[0] < b[0]
    } else {
        key_lt(a.drop_first(), b.drop_first())
    }
}

pub proof fn lemma_key_lt_irrefl(a: Seq<char>)
    ensures
        !key_lt(a, a),
    decreases a.len(),
{
    if a.len() > 0 {
        lemma_key_lt_irrefl(a.drop_first());
    }
}

pub proof fn lemma_key_lt_trans(a: Seq<char>, b: Seq<char>, c: Seq<char>)
    requires
        key_lt(a, b),
        key_lt(b, c),
    ensures
        key_lt(a, c),
    decreases a.len(),
{
    if a.len() > 0 && b.len() > 0 && c.len() > 0 && a[0] == b[0] && b[0] == c[0] {
        lemma_key_lt_trans(a.drop_first(), b.drop_first(), c.drop_first());
    }
}

pub proof fn lemma_key_lt_total(a: Seq<char>, b: Seq<char>)
    ensures
        a == b || key_lt(a, b) || key_lt(b, a),
    decreases a.len(),
{
    if a.len() > 0 && b.len() > 0 && a[0] == b[0] {
        lemma_key_lt_total(a.drop_first(), b.drop_first());
        if a.drop_first() == b.drop_first() {
            assert(a =~= seq![a[0]] + a.drop_first());
            assert(b =~= seq![b[0]] + b.drop_first());
            assert(a =~= b);
        }
    } else if a.len() == 0 && b.len() == 0 {
        assert(a =~= b);
    }
}

/// Is `a` before `b` in name order?
fn key_less(a: &[char], b: &[char]) -> (r: bool)
    ensures
        r == key_lt(a@, b@),
{
    let mut i: usize = 0;
    assert(a@.skip(0) == a@);
    assert(b@.skip(0) == b@);
    while i < a.len() && i < b.len() && a[i] == b[i]
        invariant
            i <= a@.len(),
            i <= b@.len(),
            key_lt(a@, b@) == key_lt(a@.skip(i as int), b@.skip(i as int)),
        decreases a@.len() - i,
    {
        assert(a@.skip(i as int).drop_first() == a@.skip(i + 1));
        assert(b@.skip(i as int).drop_first() == b@.skip(i + 1));
        i = i + 1;
    }
    if i == a.len() {
        i < b.len()
    } else if i == b.len() {
        false
    } else {
        a[i] < b[i]
    }
}

// ---------------------------------------------------------------------
// The dependency table
// ---------------------------------------------------------------------

pub type Entries = Seq<(Seq<char>, Seq<char>)>;

/// Names strictly increasing: sorted, and no name twice.
pub open spec fn sorted_keys(s: Entries) -> bool {
    forall|i: int, j: int| 0 <= i < j < s.len() ==> key_lt(#[trigger] s[i].0, #[trigger] s[j].0)
}

/// Number of leading entries whose name is before `k`.
pub open spec fn count_before(s: Entries, k: Seq<char>) -> nat
    decreases s.len(),
{
    if s.len() > 0 && key_lt(s[0].0, k) {
        1 + count_before(s.drop_first(), k)
    } else {
        0
    }
}

/// The table after setting `k` to `v`: an existing entry for `k` is replaced
/// in place, otherwise the entry goes where its name belongs in order.
pub open spec fn deps_insert(s: Entries, k: Seq<char>, v: Seq<char>) -> Entries {
    let p = count_before(s, k);
    if p < s.len() && s[p as int].0 == k {
        s.update(p as int, (k, v))
    } else {
        s.insert(p as int, (k, v))
    }
}

/// The value recorded for `k`.
pub open spec fn deps_get(s: Entries, k: Seq<char>) -> Option<Seq<char>>
    decreases s.len(),
{
    if s.len() == 0 {
        None
    } else if s[0].0 == k {
        Some(s[0].1)
    } else {
        deps_get(s.drop_first(), k)
    }
}

/// Name-to-version table of dependencies, ordered by name.
#[derive(Debug, Clone, PartialEq)]
pub struct Dependencies {
    entries: Vec<(String, String)>,
}

impl View for Dependencies {
    type V = Entries;

    closed spec fn view(&self) -> Entries {
        self.entries@.map_values(|e: (String, String)| (e.0@, e.1@))
    }
}

impl Dependencies {
    /// Entries sorted by name, each name once.
    pub open spec fn wf(&self) -> bool {
        sorted_keys(self@)
    }

    /// An empty table.
    pub fn new() -> (r: Self)
        ensures
            r.wf(),
            r@ == Seq::<(Seq<char>, Seq<char>)>::empty(),
    {
        let r = Dependencies { entries: Vec::new() };
        assert(r@ =~= Seq::<(Seq<char>, Seq<char>)>::empty());
        r
    }

    pub fn len(&self) -> (r: usize)
        ensures
            r == self@.len(),
    {
        self.entries.len()
    }

    pub fn is_empty(&self) -> (r: bool)
        ensures
            r == (self@.len() == 0),
    {
        self.entries.len() == 0
    }

    /// The `i`-th entry in name order.
    pub fn entry(&self, i: usize) -> (r: (&String, &String))
        requires
            i < self@.len(),
        ensures
            (r.0@, r.1@) == self@[i as int],
    {
        let e = &self.entries[i];
        (&e.0, &e.1)
    }

    /// Position of the first entry whose name is not before `k`.
    fn position(&self, k: &[char]) -> (p: usize)
        ensures
            p == count_before(self@, k@),
            p <= self@.len(),
    {
        let mut p: usize = 0;
        assert(self@.skip(0) == self@);
        while p < self.entries.len() && key_less(chars_of(self.entries[p].0.as_str()).as_slice(), k)
            invariant
                p <= self@.len(),
                self@.len() == self.entries@.len(),
                count_before(self@, k@) == p + count_before(self@.skip(p as int), k@),
            decreases self@.len() - p,
        {
            proof {
                assert(self@.skip(p as int).drop_first() == self@.skip(p + 1));
                assert(self@.skip(p as int)[0] == self@[p as int]);
                assert(self@[p as int].0 == self.entries@[p as int].0@);
            }
            p = p + 1;
        }
        proof {
            if p < self@.len() {
                assert(self@.skip(p as int)[0] == self@[p as int]);
                assert(self@[p as int].0 == self.entries@[p as int].0@);
            }
        }
        p
    }

    /// The version recorded for `name`.
    pub fn get(&self, name: &str) -> (r: Option<&String>)
        ensures
            r matches Some(v) ==> deps_get(self@, name@) == Some(v@),
            r is None ==> deps_get(self@, name@) is None,
    {
        let k = chars_of(name);
        let mut i: usize = 0;
        assert(self@.skip(0) == self@);
        while i < self.entries.len()
            invariant
                i <= self@.len(),
                self@.len() == self.entries@.len(),
                k@ == name@,
                deps_get(self@, k@) == deps_get(self@.skip(i as int), k@),
            decreases self@.len() - i,
        {
            proof {
                assert(self@.skip(i as int).drop_first() == self@.skip(i + 1));
                assert(self@.skip(i as int)[0] == self@[i as int]);
                assert(self@[i as int] == (self.entries@[i as int].0@, self.entries@[i as int].1@));
            }
            if chars_eq(chars_of(self.entries[i].0.as_str()).as_slice(), k.as_slice()) {
                let v = &self.entries[i].1;
                assert(deps_get(self@.skip(i as int), k@) == Some(v@));
                return Some(v);
            }
            i = i + 1;
        }
        None
    }

    pub fn contains_key(&self, name: &str) -> (r: bool)
        ensures
            r == deps_get(self@, name@) is Some,
    {
        self.get(name).is_some()
    }

    /// Sets the version of `name`, returning the one it replaces.
    pub fn insert(&mut self, name: String, version: String) -> (r: Option<String>)
        requires
            old(self).wf(),
        ensures
            final(self).wf(),
            final(self)@ == deps_insert(old(self)@, name@, version@),
            r matches Some(v) ==> deps_get(old(self)@, name@) == Some(v@),
            r is None ==> deps_get(old(self)@, name@) is None,
    {
        let ghost s = self@;
        let k = chars_of(name.as_str());
        let p = self.position(k.as_slice());
        proof {
            lemma_count_before(s, name@);
        }
        if p < self.entries.len() && chars_eq(chars_of(self.entries[p].0.as_str()).as_slice(), k.as_slice()) {
            proof {
                assert(s[p as int].0 == self.entries@[p as int].0@);
                lemma_get_at(s, p as int);
            }
            let (_, prev) = self.entries.remove(p);
            self.entries.insert(p, (name, version));
            proof {
                assert(self@ =~= s.update(p as int, (name@, version@)));
                lemma_sorted_update(s, p as int, version@);
            }
            Some(prev)
        } else {
            proof {
                if p < s.len() {
                    assert(s[p as int].0 == self.entries@[p as int].0@);
                }
                lemma_get_absent(s, name@);
            }
            self.entries.insert(p, (name, version));
            proof {
                assert(self@ =~= s.insert(p as int, (name@, version@)));
                lemma_sorted_insert(s, name@, version@);
            }
            None
        }
    }

    /// A table holding the given pairs, later pairs replacing earlier ones with the same name.
    pub fn from_pairs(pairs: Vec<(String, String)>) -> (r: Self)
        ensures
            r.wf(),
            r@ == inserted_all(Seq::<(Seq<char>, Seq<char>)>::empty(), pairs@.map_values(
                |e: (String, String)| (e.0@, e.1@),
            )),
    {
        let ghost ps = pairs@.map_values(|e: (String, String)| (e.0@, e.1@));
        let mut r = Dependencies::new();
        let mut pairs = pairs;
        let mut rev: Vec<(String, String)> = Vec::new();
        while pairs.len() > 0
            invariant
                rev@.len() + pairs@.len() == ps.len(),
                forall|i: int| 0 <= i < pairs@.len() ==> (#[trigger] pairs@[i].0@, pairs@[i].1@) == ps[i],
                forall|i: int| 0 <= i < rev@.len() ==> (#[trigger] rev@[i].0@, rev@[i].1@) == ps[ps.len() - 1 - i],
            decreases pairs@.len(),
        {
            let e = pairs.pop().unwrap();
            rev.push(e);
        }
        let n = rev.len();
        while rev.len() > 0
            invariant
                rev@.len() <= n,
                n == ps.len(),
                forall|i: int| 0 <= i < rev@.len() ==> (#[trigger] rev@[i].0@, rev@[i].1@) == ps[n - 1 - i],
                r.wf(),
                r@ == inserted_all(Seq::<(Seq<char>, Seq<char>)>::empty(), ps.take(n - rev@.len())),
            decreases rev@.len(),
        {
            let ghost before = rev@.len();
            let (k, v) = rev.pop().unwrap();
            proof {
                assert(ps.take(n - before + 1).drop_last() == ps.take(n - before));
                assert(ps.take(n - before + 1).last() == ps[n - before]);
            }
            r.insert(k, v);
        }
        assert(ps.take(n as int) == ps);
        r
    }
}

/// The table after inserting each pair of `ps` in turn.
pub open spec fn inserted_all(s: Entries, ps: Entries) -> Entries
    decreases ps.len(),
{
    if ps.len() == 0 {
        s
    } else {
        deps_insert(inserted_all(s, ps.drop_last()), ps.last().0, ps.last().1)
    }
}

// ---------------------------------------------------------------------
// Lemmas on the table
// ---------------------------------------------------------------------

/// On a sorted table, the entries before `count_before` are exactly those named before `k`.
pub proof fn lemma_count_before(s: Entries, k: Seq<char>)
    requires
        sorted_keys(s),
    ensures
        count_before(s, k) <= s.len(),
        forall|i: int| 0 <= i < count_before(s, k) ==> key_lt(#[trigger] s[i].0, k),
        forall|i: int| count_before(s, k) <= i < s.len() ==> !key_lt(#[trigger] s[i].0, k),
    decreases s.len(),
{
    if s.len() > 0 {
        let t = s.drop_first();
        assert(sorted_keys(t)) by {
            assert forall|i: int, j: int| 0 <= i < j < t.len() implies key_lt(#[trigger] t[i].0, #[trigger] t[j].0) by {
                assert(t[i] == s[i + 1] && t[j] == s[j + 1]);
            }
        }
        lemma_count_before(t, k);
        if key_lt(s[0].0, k) {
            assert forall|i: int| 0 <= i < count_before(s, k) implies key_lt(#[trigger] s[i].0, k) by {
                if i > 0 {
                    assert(s[i] == t[i - 1]);
                }
            }
            assert forall|i: int| count_before(s, k) <= i < s.len() implies !key_lt(#[trigger] s[i].0, k) by {
                assert(s[i] == t[i - 1]);
            }
        } else {
            assert forall|i: int| 0 <= i < s.len() implies !key_lt(#[trigger] s[i].0, k) by {
                if i > 0 && key_lt(s[i].0, k) {
                    assert(key_lt(s[0].0, s[i].0));
                    lemma_key_lt_trans(s[0].0, s[i].0, k);
                }
            }
        }
    }
}

/// The value at a position of a sorted table is the one `deps_get` finds.
pub proof fn lemma_get_at(s: Entries, p: int)
    requires
        sorted_keys(s),
        0 <= p < s.len(),
    ensures
        deps_get(s, s[p].0) == Some(s[p].1),
    decreases p,
{
    if p > 0 {
        let t = s.drop_first();
        assert(key_lt(s[0].0, s[p].0));
        if s[0].0 == s[p].0 {
            lemma_key_lt_irrefl(s[0].0);
        }
        assert(sorted_keys(t)) by {
            assert forall|i: int, j: int| 0 <= i < j < t.len() implies key_lt(#[trigger] t[i].0, #[trigger] t[j].0) by {
                assert(t[i] == s[i + 1] && t[j] == s[j + 1]);
            }
        }
        assert(t[p - 1] == s[p]);
        lemma_get_at(t, p - 1);
    }
}

/// A name that no entry carries has no value.
pub proof fn lemma_get_none(s: Entries, k: Seq<char>)
    requires
        forall|i: int| 0 <= i < s.len() ==> #[trigger] s[i].0 != k,
    ensures
        deps_get(s, k) is None,
    decreases s.len(),
{
    if s.len() > 0 {
        assert(s[0].0 != k);
        let t = s.drop_first();
        assert forall|i: int| 0 <= i < t.len() implies #[trigger] t[i].0 != k by {
            assert(t[i] == s[i + 1]);
        }
        lemma_get_none(t, k);
    }
}

/// When the entry at `count_before` is not named `k`, no entry is.
pub proof fn lemma_get_absent(s: Entries, k: Seq<char>)
    requires
        sorted_keys(s),
        !(count_before(s, k) < s.len() && s[count_before(s, k) as int].0 == k),
    ensures
        deps_get(s, k) is None,
        forall|i: int| 0 <= i < s.len() ==> #[trigger] s[i].0 != k,
{
    lemma_count_before(s, k);
    let p = count_before(s, k) as int;
    assert forall|i: int| 0 <= i < s.len() implies #[trigger] s[i].0 != k by {
        if i < p {
            lemma_key_lt_irrefl(k);
        } else if i > p {
            assert(key_lt(s[p].0, s[i].0));
            if s[i].0 == k {
                lemma_key_lt_total(s[p].0, k);
            }
        }
    }
    lemma_get_none(s, k);
}

pub proof fn lemma_sorted_update(s: Entries, p: int, v: Seq<char>)
    requires
        sorted_keys(s),
        0 <= p < s.len(),
    ensures
        sorted_keys(s.update(p, (s[p].0, v))),
{
    let u = s.update(p, (s[p].0, v));
    assert forall|i: int, j: int| 0 <= i < j < u.len() implies key_lt(#[trigger] u[i].0, #[trigger] u[j].0) by {
        assert(u[i].0 == s[i].0 && u[j].0 == s[j].0);
    }
}

pub proof fn lemma_sorted_insert(s: Entries, k: Seq<char>, v: Seq<char>)
    requires
        sorted_keys(s),
        !(count_before(s, k) < s.len() && s[count_before(s, k) as int].0 == k),
    ensures
        sorted_keys(s.insert(count_before(s, k) as int, (k, v))),
{
    lemma_count_before(s, k);
    let p = count_before(s, k) as int;
    let u = s.insert(p, (k, v));
    if p < s.len() {
        lemma_key_lt_total(s[p].0, k);
    }
    assert forall|i: int, j: int| 0 <= i < j < u.len() implies key_lt(#[trigger] u[i].0, #[trigger] u[j].0) by {
        if j < p {
            assert(u[i] == s[i] && u[j] == s[j]);
        } else if j == p {
            assert(u[i] == s[i]);
        } else if i == p {
            assert(u[j] == s[j - 1]);
            if j - 1 > p {
                lemma_key_lt_trans(k, s[p].0, s[j - 1].0);
            }
        } else if i < p {
            assert(u[i] == s[i] && u[j] == s[j - 1]);
        } else {
            assert(u[i] == s[i - 1] && u[j] == s[j - 1]);
        }
    }
}

/// Reading back a name gives the version last set for it; other names keep theirs.
pub proof fn lemma_insert_get(s: Entries, k: Seq<char>, v: Seq<char>, other: Seq<char>)
    requires
        sorted_keys(s),
    ensures
        deps_get(deps_insert(s, k, v), k) == Some(v),
        other != k ==> deps_get(deps_insert(s, k, v), other) == deps_get(s, other),
{
    lemma_count_before(s, k);
    let p = count_before(s, k) as int;
    let u = deps_insert(s, k, v);
    let found = p < s.len() && s[p].0 == k;
    if found {
        lemma_sorted_update(s, p, v);
        assert(u == s.update(p, (s[p].0, v)));
    } else {
        lemma_sorted_insert(s, k, v);
    }
    assert(u[p] == (k, v));
    lemma_get_at(u, p);
    if other != k {
        if exists|q: int| 0 <= q < s.len() && #[trigger] s[q].0 == other {
            let q = choose|q: int| 0 <= q < s.len() && #[trigger] s[q].0 == other;
            lemma_get_at(s, q);
            if found {
                assert(q != p);
                assert(u[q] == s[q]);
                lemma_get_at(u, q);
            } else if q < p {
                assert(u[q] == s[q]);
                lemma_get_at(u, q);
            } else {
                assert(u[q + 1] == s[q]);
                lemma_get_at(u, q + 1);
            }
        } else {
            lemma_get_none(s, other);
            assert forall|i: int| 0 <= i < u.len() implies #[trigger] u[i].0 != other by {
                if found {
                    if i != p {
                        assert(u[i] == s[i]);
                    }
                } else if i < p {
                    assert(u[i] == s[i]);
                } else if i > p {
                    assert(u[i] == s[i - 1]);
                }
            }
            lemma_get_none(u, other);
        }
    }
}

// ---------------------------------------------------------------------
// The manifest
// ---------------------------------------------------------------------

/// The `[package]` table.
#[derive(Debug, Clone, PartialEq)]
pub struct PackageMeta {
    pub name: String,
    pub version: String,
    pub edition: String,
}

impl Default for PackageMeta {
    /// No name, version `0.1.0`, edition `2024`.
    fn default() -> (r: Self)
        ensures
            r.name@ == Seq::<char>::empty(),
            r.version@ == "0.1.0"@,
            r.edition@ == "2024"@,
    {
        PackageMeta { name: String::new(), version: "0.1.0".to_owned(), edition: "2024".to_owned() }
    }
}

/// A parsed `Qaw.toml`.
#[derive(Debug, Clone, PartialEq)]
pub struct QawToml {
    pub package: PackageMeta,
    pub dependencies: Dependencies,
}

/// What a manifest holds, as sequences.
#[verifier::ext_equal]
pub struct ManifestView {
    pub name: Seq<char>,
    pub version: Seq<char>,
    pub edition: Seq<char>,
    pub deps: Entries,
}

impl View for QawToml {
    type V = ManifestView;

    open spec fn view(&self) -> ManifestView {
        ManifestView {
            name: self.package.name@,
            version: self.package.version@,
            edition: self.package.edition@,
            deps: self.dependencies@,
        }
    }
}

impl QawToml {
    pub open spec fn wf(&self) -> bool {
        self.dependencies.wf()
    }
}

impl Default for QawToml {
    /// The default package table and no dependencies.
    fn default() -> (r: Self)
        ensures
            r.wf(),
            r@ == default_manifest(),
    {
        QawToml { package: PackageMeta::default(), dependencies: Dependencies::new() }
    }
}

pub open spec fn default_manifest() -> ManifestView {
    ManifestView {
        name: seq![],
        version: "0.1.0"@,
        edition: "2024"@,
        deps: seq![],
    }
}

/// One `[[package]]` table of the lock file.
#[derive(Debug, Clone, PartialEq)]
pub struct LockEntry {
    pub name: String,
    pub version: String,
    pub source: Option<String>,
}

// ---------------------------------------------------------------------
// Parsing
// ---------------------------------------------------------------------

/// The line before its first `#`.
pub open spec fn strip_comment_of(line: Seq<char>) -> Seq<char> {
    match find_char(line, '#') {
        Some(i) => line.take(i as int),
        None => line,
    }
}

/// The trimmed text without one pair of surrounding `"` or `'` quotes.
pub open spec fn unquote_of(s: Seq<char>) -> Seq<char> {
    let t = trim(s);
    if t.len() >= 2 && ((t[0] == '"' && t.last() == '"') || (t[0] == '\'' && t.last() == '\'')) {
        t.subrange(1, t.len() - 1)
    } else {
        t
    }
}

pub open spec fn header_error(n: nat, line: Seq<char>) -> Seq<char> {
    "第 "@ + dec(n) + " 行: 表头格式错误 `"@ + line + "`"@
}

pub open spec fn missing_eq_error(n: nat, line: Seq<char>) -> Seq<char> {
    "第 "@ + dec(n) + " 行: 缺少 `=`: `"@ + line + "`"@
}

/// The manifest after a `key = value` line in section `section`.
pub open spec fn apply_entry(m: ManifestView, section: Seq<char>, key: Seq<char>, value: Seq<char>) -> ManifestView {
    if section == "package"@ {
        if key == "name"@ {
            ManifestView { name: value, ..m }
        } else if key == "version"@ {
            ManifestView { version: value, ..m }
        } else if key == "edition"@ {
            ManifestView { edition: value, ..m }
        } else {
            m
        }
    } else if section == "dependencies"@ {
        ManifestView { deps: deps_insert(m.deps, key, value), ..m }
    } else {
        m
    }
}

/// Reading lines `i..` in section `section` on top of `m`: the manifest, or the
/// message for the first malformed line.
pub open spec fn parse_lines(ls: Seq<Seq<char>>, i: nat, section: Seq<char>, m: ManifestView) -> Result<
    ManifestView,
    Seq<char>,
>
    decreases ls.len() - i,
{
    if i >= ls.len() {
        Ok(m)
    } else {
        let line = trim(strip_comment_of(ls[i as int]));
        if line.len() == 0 {
            parse_lines(ls, i + 1, section, m)
        } else if line[0] == '[' {
            if line.last() != ']' {
                Err(header_error(i + 1, line))
            } else {
                parse_lines(ls, i + 1, trim(line.subrange(1, line.len() - 1)), m)
            }
        } else {
            match find_char(line, '=') {
                None => Err(missing_eq_error(i + 1, line)),
                Some(eq) => parse_lines(
                    ls,
                    i + 1,
                    section,
                    apply_entry(m, section, trim(line.take(eq as int)), unquote_of(trim(line.skip(eq + 1 as int)))),
                ),
            }
        }
    }
}

/// The meaning of a manifest text.
pub open spec fn parse_manifest(content: Seq<char>) -> Result<ManifestView, Seq<char>> {
    parse_lines(lines(content), 0, seq![], default_manifest())
}

/// A line that the manifest reader rejects: after its comment is cut and it is
/// trimmed, a header not closed by `]`, or a non-header line without `=`.
pub open spec fn bad_line(l: Seq<char>) -> bool {
    let t = trim(strip_comment_of(l));
    &&& t.len() > 0
    &&& if t[0] == '[' {
        t.last() != ']'
    } else {
        find_char(t, '=') is None
    }
}

/// The message for a rejected line `l`, the `n`-th (from 1).
pub open spec fn bad_line_error(n: nat, l: Seq<char>) -> Seq<char> {
    let t = trim(strip_comment_of(l));
    if t[0] == '[' {
        header_error(n, t)
    } else {
        missing_eq_error(n, t)
    }
}

proof fn lemma_parse_lines_rejects(ls: Seq<Seq<char>>, i: nat, section: Seq<char>, m: ManifestView)
    ensures
        parse_lines(ls, i, section, m) is Err <==> exists|j: int| i <= j < ls.len() && bad_line(#[trigger] ls[j]),
        forall|j: int|
            i <= j < ls.len() && bad_line(#[trigger] ls[j]) && (forall|k: int| i <= k < j ==> !bad_line(ls[k]))
                ==> parse_lines(ls, i, section, m) == Err::<ManifestView, Seq<char>>(bad_line_error((j + 1) as nat, ls[j])),
    decreases ls.len() - i,
{
    if i < ls.len() {
        let line = trim(strip_comment_of(ls[i as int]));
        if line.len() == 0 {
            lemma_parse_lines_rejects(ls, i + 1, section, m);
            assert(!bad_line(ls[i as int]));
        } else if line[0] == '[' {
            if line.last() != ']' {
                assert(bad_line(ls[i as int]));
            } else {
                assert(!bad_line(ls[i as int]));
                lemma_parse_lines_rejects(ls, i + 1, trim(line.subrange(1, line.len() - 1)), m);
            }
        } else {
            match find_char(line, '=') {
                None => {
                    assert(bad_line(ls[i as int]));
                },
                Some(eq) => {
                    assert(!bad_line(ls[i as int]));
                    lemma_parse_lines_rejects(
                        ls,
                        i + 1,
                        section,
                        apply_entry(m, section, trim(line.take(eq as int)), unquote_of(trim(line.skip(eq + 1 as int)))),
                    );
                },
            }
        }
    }
}

/// A manifest is rejected exactly when one of its lines is malformed (a header
/// not closed by `]`, or another non-blank line without `=`, comments cut and
/// blanks trimmed), and the message names the first such line by its number.
pub proof fn lemma_manifest_rejects(content: Seq<char>)
    ensures
        parse_manifest(content) is Err <==> exists|j: int| 0 <= j < lines(content).len() && bad_line(#[trigger] lines(content)[j]),
        forall|j: int|
            0 <= j < lines(content).len() && bad_line(#[trigger] lines(content)[j]) && (forall|k: int| 0 <= k < j ==> !bad_line(lines(content)[k]))
                ==> parse_manifest(content) == Err::<ManifestView, Seq<char>>(bad_line_error((j + 1) as nat, lines(content)[j])),
{
    lemma_parse_lines_rejects(lines(content), 0, seq![], default_manifest());
}

fn strip_comment(line: &[char]) -> (r: Vec<char>)
    ensures
        r@ == strip_comment_of(line@),
{
    match find(line, '#') {
        Some(i) => {
            proof {
                crate::text::lemma_find_char_bound(line@, '#');
            }
            slice_chars(line, 0, i)
        },
        None => slice_chars(line, 0, line.len()),
    }
}

fn unquote_chars(s: &[char]) -> (r: Vec<char>)
    ensures
        r@ == unquote_of(s@),
{
    let t = trim_chars(s);
    let n = t.len();
    if n >= 2 && ((t[0] == '"' && t[n - 1] == '"') || (t[0] == '\'' && t[n - 1] == '\'')) {
        slice_chars(t.as_slice(), 1, n - 1)
    } else {
        t
    }
}

/// The trimmed text without one pair of surrounding `"` or `'` quotes.
pub fn unquote(s: &str) -> (r: String)
    ensures
        r@ == unquote_of(s@),
{
    let cs = chars_of(s);
    let u = unquote_chars(cs.as_slice());
    string_of(u.as_slice())
}

fn line_error(n: usize, what: &str, line: &[char]) -> (r: String)
    ensures
        r@ == "第 "@ + dec(n as nat) + what@ + line@ + "`"@,
{
    let mut s = String::new();
    push_str(&mut s, "第 ");
    push_usize(&mut s, n);
    push_str(&mut s, what);
    push_chars(&mut s, line);
    push_str(&mut s, "`");
    assert(s@ =~= "第 "@ + dec(n as nat) + what@ + line@ + "`"@);
    s
}

/// Parses a manifest: `[section]` headers and `key = value` lines; `#` starts a
/// comment. `name`, `version` and `edition` are read in `[package]`, every key in
/// `[dependencies]`; other keys and sections are ignored. A header without `]` and
/// a line without `=` are errors, reported with their 1-based line number.
pub fn parse_qaw_toml(content: &str) -> (r: Result<QawToml, String>)
    ensures
        r matches Ok(t) ==> t.wf() && parse_manifest(content@) == Ok::<ManifestView, Seq<char>>(t@),
        r matches Err(e) ==> parse_manifest(content@) == Err::<ManifestView, Seq<char>>(e@),
{
    let cs = chars_of(content);
    let ls = split_lines(cs.as_slice());
    let ghost vs = views(ls@);
    let mut toml = QawToml::default();
    let mut section: Vec<char> = Vec::new();
    let mut idx: usize = 0;
    assert(section@ =~= Seq::<char>::empty());
    while idx < ls.len()
        invariant
            idx <= ls@.len(),
            vs == views(ls@),
            vs == lines(content@),
            toml.wf(),
            parse_manifest(content@) == parse_lines(vs, idx as nat, section@, toml@),
        decreases ls@.len() - idx,
    {
        let ghost m = toml@;
        let stripped = strip_comment(ls[idx].as_slice());
        let line = trim_chars(stripped.as_slice());
        let n = line.len();
        if n == 0 {
            idx = idx + 1;
            continue;
        }
        if line[0] == '[' {
            if line[n - 1] != ']' {
                return Err(line_error(idx + 1, " 行: 表头格式错误 `", line.as_slice()));
            }
            let inner = slice_chars(line.as_slice(), 1, n - 1);
            section = trim_chars(inner.as_slice());
            idx = idx + 1;
            continue;
        }
        let eq = match find(line.as_slice(), '=') {
            Some(i) => i,
            None => {
                return Err(line_error(idx + 1, " 行: 缺少 `=`: `", line.as_slice()));
            },
        };
        proof {
            crate::text::lemma_find_char_bound(line@, '=');
        }
        let before_eq = slice_chars(line.as_slice(), 0, eq);
        let key = trim_chars(before_eq.as_slice());
        let after_eq = slice_chars(line.as_slice(), eq + 1, n);
        let after_trim = trim_chars(after_eq.as_slice());
        let value = unquote_chars(after_trim.as_slice());
        assert(before_eq@ == line@.take(eq as int));
        assert(after_eq@ == line@.skip(eq + 1 as int));
        if spells(section.as_slice(), "package") {
            if spells(key.as_slice(), "name") {
                toml.package.name = string_of(value.as_slice());
            } else if spells(key.as_slice(), "version") {
                toml.package.version = string_of(value.as_slice());
            } else if spells(key.as_slice(), "edition") {
                toml.package.edition = string_of(value.as_slice());
            }
        } else if spells(section.as_slice(), "dependencies") {
            toml.dependencies.insert(string_of(key.as_slice()), string_of(value.as_slice()));
        }
        assert(toml@ =~= apply_entry(m, section@, key@, value@));
        idx = idx + 1;
    }
    Ok(toml)
}

// ---------------------------------------------------------------------
// Writing
// ---------------------------------------------------------------------

/// Lines, each followed by a newline.
pub open spec fn unlines(ls: Seq<Seq<char>>) -> Seq<char>
    decreases ls.len(),
{
    if ls.len() == 0 {
        seq![]
    } else {
        ls[0] + seq!['\n'] + unlines(ls.drop_first())
    }
}

/// `key = "value"`.
pub open spec fn entry_line(k: Seq<char>, v: Seq<char>) -> Seq<char> {
    k + " = \""@ + v + "\""@
}

/// The `[package]` table and the `[dependencies]` header.
pub open spec fn header_lines(m: ManifestView) -> Seq<Seq<char>> {
    seq![
        "[package]"@,
        entry_line("name"@, m.name),
        entry_line("version"@, m.version),
        entry_line("edition"@, m.edition),
        Seq::<char>::empty(),
        "[dependencies]"@,
    ]
}

/// One `name = "version"` line per dependency, in table order.
pub open spec fn dep_lines(d: Entries) -> Seq<Seq<char>> {
    d.map_values(|e: (Seq<char>, Seq<char>)| entry_line(e.0, e.1))
}

/// The text of a manifest: the package table, then the dependencies (or a
/// comment saying there are none).
pub open spec fn manifest_text(m: ManifestView) -> Seq<char> {
    unlines(header_lines(m)) + if m.deps.len() == 0 {
        unlines(seq!["# （暂无依赖）"@])
    } else {
        unlines(dep_lines(m.deps))
    }
}

pub proof fn lemma_unlines_push(ls: Seq<Seq<char>>, l: Seq<char>)
    ensures
        unlines(ls.push(l)) == unlines(ls) + l + seq!['\n'],
    decreases ls.len(),
{
    if ls.len() == 0 {
        assert(ls.push(l).drop_first() == Seq::<Seq<char>>::empty());
        assert(ls.push(l)[0] == l);
        assert(unlines(Seq::<Seq<char>>::empty()) == Seq::<char>::empty());
        assert(unlines(ls.push(l)) =~= l + seq!['\n']);
        assert(unlines(ls) == Seq::<char>::empty());
    } else {
        lemma_unlines_push(ls.drop_first(), l);
        assert(ls.push(l).drop_first() == ls.drop_first().push(l));
        assert(unlines(ls.push(l)) =~= unlines(ls) + l + seq!['\n']);
    }
}

fn push_entry_line(out: &mut String, k: &str, v: &str)
    ensures
        final(out)@ == old(out)@ + entry_line(k@, v@) + seq!['\n'],
{
    push_str(out, k);
    push_str(out, " = \"");
    push_str(out, v);
    push_str(out, "\"");
    crate::text::push_char(out, '\n');
    assert(final(out)@ =~= old(out)@ + entry_line(k@, v@) + seq!['\n']);
}

/// The manifest text: `[package]` with `name`, `version` and `edition`, a blank
/// line, then `[dependencies]` with one `name = "version"` line per dependency
/// in name order, or a comment when there is none.
pub fn write_qaw_toml(toml: &QawToml) -> (r: String)
    ensures
        r@ == manifest_text(toml@),
{
    let ghost m = toml@;
    let mut s = String::new();
    push_str(&mut s, "[package]");
    crate::text::push_char(&mut s, '\n');
    push_entry_line(&mut s, "name", toml.package.name.as_str());
    push_entry_line(&mut s, "version", toml.package.version.as_str());
    push_entry_line(&mut s, "edition", toml.package.edition.as_str());
    crate::text::push_char(&mut s, '\n');
    push_str(&mut s, "[dependencies]");
    crate::text::push_char(&mut s, '\n');
    proof {
        reveal_with_fuel(unlines, 7);
        assert(s@ =~= unlines(header_lines(m)));
    }
    let ghost head = s@;
    let d = &toml.dependencies;
    if d.is_empty() {
        push_str(&mut s, "# （暂无依赖）");
        crate::text::push_char(&mut s, '\n');
        proof {
            reveal_with_fuel(unlines, 2);
            assert(s@ =~= head + unlines(seq!["# （暂无依赖）"@]));
        }
    } else {
        let mut k: usize = 0;
        assert(dep_lines(m.deps.take(0)) =~= Seq::<Seq<char>>::empty());
        while k < d.len()
            invariant
                k <= m.deps.len(),
                d@ == m.deps,
                s@ == head + unlines(dep_lines(m.deps.take(k as int))),
            decreases m.deps.len() - k,
        {
            let (name, version) = d.entry(k);
            push_entry_line(&mut s, name.as_str(), version.as_str());
            proof {
                assert(dep_lines(m.deps.take(k + 1)) =~= dep_lines(m.deps.take(k as int)).push(
                    entry_line(m.deps[k as int].0, m.deps[k as int].1),
                ));
                lemma_unlines_push(
                    dep_lines(m.deps.take(k as int)),
                    entry_line(m.deps[k as int].0, m.deps[k as int].1),
                );
            }
            k = k + 1;
        }
        assert(m.deps.take(m.deps.len() as int) == m.deps);
    }
    s
}

// ---------------------------------------------------------------------
// Lock file and project set-up
// ---------------------------------------------------------------------

/// Where the dependencies of a lock file come from.
pub const REGISTRY_URL: &'static str = "registry+https://qaw-lang.org";

impl View for LockEntry {
    type V = (Seq<char>, Seq<char>, Option<Seq<char>>);

    open spec fn view(&self) -> (Seq<char>, Seq<char>, Option<Seq<char>>) {
        (
            self.name@,
            self.version@,
            match self.source {
                Some(s) => Some(s@),
                None => None,
            },
        )
    }
}

pub open spec fn lock_views(es: Seq<LockEntry>) -> Seq<(Seq<char>, Seq<char>, Option<Seq<char>>)> {
    es.map_values(|e: LockEntry| e@)
}

/// One `[[package]]` table: name, version, and the source when there is one.
pub open spec fn lock_entry_text(e: (Seq<char>, Seq<char>, Option<Seq<char>>)) -> Seq<char> {
    "[[package]]\n"@ + "name = \""@ + e.0 + "\"\n"@ + "version = \""@ + e.1 + "\"\n"@ + match e.2 {
        Some(src) => "source = \""@ + src + "\"\n"@,
        None => Seq::<char>::empty(),
    }
}

/// The tables separated by blank lines.
pub open spec fn lock_text(es: Seq<(Seq<char>, Seq<char>, Option<Seq<char>>)>) -> Seq<char>
    decreases es.len(),
{
    if es.len() == 0 {
        seq![]
    } else if es.len() == 1 {
        lock_entry_text(es[0])
    } else {
        lock_text(es.drop_last()) + seq!['\n'] + lock_entry_text(es.last())
    }
}

/// The lock file text for the given entries.
pub fn render_lock(entries: &[LockEntry]) -> (r: String)
    ensures
        r@ == lock_text(lock_views(entries@)),
{
    let ghost v = lock_views(entries@);
    let mut s = String::new();
    let mut i: usize = 0;
    assert(v.take(0) =~= Seq::<(Seq<char>, Seq<char>, Option<Seq<char>>)>::empty());
    while i < entries.len()
        invariant
            i <= entries@.len(),
            v == lock_views(entries@),
            s@ == lock_text(v.take(i as int)),
        decreases entries@.len() - i,
    {
        let ghost before = s@;
        if i > 0 {
            crate::text::push_char(&mut s, '\n');
        }
        let e = &entries[i];
        push_str(&mut s, "[[package]]\n");
        push_str(&mut s, "name = \"");
        push_str(&mut s, e.name.as_str());
        push_str(&mut s, "\"\n");
        push_str(&mut s, "version = \"");
        push_str(&mut s, e.version.as_str());
        push_str(&mut s, "\"\n");
        match &e.source {
            Some(src) => {
                push_str(&mut s, "source = \"");
                push_str(&mut s, src.as_str());
                push_str(&mut s, "\"\n");
            },
            None => {},
        }
        proof {
            let t = v.take(i + 1);
            assert(t.drop_last() == v.take(i as int));
            assert(t.last() == e@);
            if i == 0 {
                assert(s@ =~= lock_entry_text(e@));
            } else {
                assert(s@ =~= before + seq!['\n'] + lock_entry_text(e@));
            }
        }
        i = i + 1;
    }
    assert(v.take(entries@.len() as int) == v);
    s
}

/// The lock entries of a project: the package itself, with no source, then each
/// dependency in name order, from the registry.
pub fn lock_entries(toml: &QawToml) -> (r: Vec<LockEntry>)
    ensures
        lock_views(r@) == seq![(toml.package.name@, toml.package.version@, None::<Seq<char>>)]
            + toml.dependencies@.map_values(
            |e: (Seq<char>, Seq<char>)| (e.0, e.1, Some(REGISTRY_URL@)),
        ),
{
    let mut r: Vec<LockEntry> = Vec::new();
    r.push(
        LockEntry {
            name: toml.package.name.clone(),
            version: toml.package.version.clone(),
            source: None,
        },
    );
    let d = &toml.dependencies;
    let ghost deps = d@;
    let ghost first = seq![(toml.package.name@, toml.package.version@, None::<Seq<char>>)];
    let mut k: usize = 0;
    assert(lock_views(r@) =~= first);
    while k < d.len()
        invariant
            k <= deps.len(),
            d@ == deps,
            first == seq![(toml.package.name@, toml.package.version@, None::<Seq<char>>)],
            lock_views(r@) == first + deps.take(k as int).map_values(
                |e: (Seq<char>, Seq<char>)| (e.0, e.1, Some(REGISTRY_URL@)),
            ),
        decreases deps.len() - k,
    {
        let (name, version) = d.entry(k);
        let ghost before = lock_views(r@);
        r.push(LockEntry { name: name.clone(), version: version.clone(), source: Some(REGISTRY_URL.to_owned()) });
        proof {
            assert(lock_views(r@) =~= before.push((deps[k as int].0, deps[k as int].1, Some(REGISTRY_URL@))));
            assert(deps.take(k + 1).map_values(|e: (Seq<char>, Seq<char>)| (e.0, e.1, Some(REGISTRY_URL@)))
                =~= deps.take(k as int).map_values(
                |e: (Seq<char>, Seq<char>)| (e.0, e.1, Some(REGISTRY_URL@)),
            ).push((deps[k as int].0, deps[k as int].1, Some(REGISTRY_URL@))));
        }
        k = k + 1;
    }
    assert(deps.take(deps.len() as int) == deps);
    r
}

/// `name version` per entry, one per line: the record of registered packages.
pub open spec fn cache_listing(es: Seq<(Seq<char>, Seq<char>, Option<Seq<char>>)>) -> Seq<char>
    decreases es.len(),
{
    if es.len() == 0 {
        seq![]
    } else {
        cache_listing(es.drop_last()) + es.last().0 + seq![' '] + es.last().1 + seq!['\n']
    }
}

/// The listing of registered packages written to the cache.
pub fn render_cache_listing(entries: &[LockEntry]) -> (r: String)
    ensures
        r@ == cache_listing(lock_views(entries@)),
{
    let ghost v = lock_views(entries@);
    let mut s = String::new();
    let mut i: usize = 0;
    assert(v.take(0) =~= Seq::<(Seq<char>, Seq<char>, Option<Seq<char>>)>::empty());
    while i < entries.len()
        invariant
            i <= entries@.len(),
            v == lock_views(entries@),
            s@ == cache_listing(v.take(i as int)),
        decreases entries@.len() - i,
    {
        let ghost before = s@;
        push_str(&mut s, entries[i].name.as_str());
        crate::text::push_char(&mut s, ' ');
        push_str(&mut s, entries[i].version.as_str());
        crate::text::push_char(&mut s, '\n');
        proof {
            let t = v.take(i + 1);
            assert(t.drop_last() == v.take(i as int));
            assert(t.last() == entries@[i as int]@);
            assert(s@ =~= before + entries@[i as int].name@ + seq![' '] + entries@[i as int].version@ + seq!['\n']);
        }
        i = i + 1;
    }
    assert(v.take(entries@.len() as int) == v);
    s
}

/// The manifest that `init` writes for a new project.
pub fn init_manifest(name: &str) -> (r: QawToml)
    ensures
        r.wf(),
        r@ == (ManifestView { name: name@, version: "0.1.0"@, edition: "2024"@, deps: seq![] }),
{
    QawToml {
        package: PackageMeta { name: name.to_owned(), version: "0.1.0".to_owned(), edition: "2024".to_owned() },
        dependencies: Dependencies::new(),
    }
}

pub open spec fn main_template_text(name: Seq<char>) -> Seq<char> {
    "// "@ + name + ".qaw — 由 qawpm init 生成\n\nfunc main() {\n    print(\"你好, 世界!\");\n}\n"@
}

/// The `src/main.qaw` that `init` writes for a new project.
pub fn main_template(name: &str) -> (r: String)
    ensures
        r@ == main_template_text(name@),
{
    let mut s = String::new();
    push_str(&mut s, "// ");
    push_str(&mut s, name);
    push_str(&mut s, ".qaw — 由 qawpm init 生成\n\nfunc main() {\n    print(\"你好, 世界!\");\n}\n");
    assert(s@ =~= main_template_text(name@));
    s
}

pub open spec fn valid_dep_name(name: Seq<char>) -> bool {
    !name.contains('=') && !name.contains(' ') && !name.contains('"')
}

/// Checks the arguments of `add`: a name and a version are both given, and the
/// name holds no `=`, space or `"`.
pub fn check_dependency(name: &str, version: &str) -> (r: Result<(), String>)
    ensures
        r is Ok <==> name@.len() > 0 && version@.len() > 0 && valid_dep_name(name@),
        r matches Err(e) ==> (if name@.len() == 0 || version@.len() == 0 {
            e@ == "add 需要 <name> 和 <version> 两个参数"@
        } else {
            e@ == "非法依赖名 `"@ + name@ + "`"@
        }),
{
    let cs = chars_of(name);
    let vs = chars_of(version);
    if cs.len() == 0 || vs.len() == 0 {
        return Err("add 需要 <name> 和 <version> 两个参数".to_owned());
    }
    let bad = find(cs.as_slice(), '=').is_some() || find(cs.as_slice(), ' ').is_some() || find(
        cs.as_slice(),
        '"',
    ).is_some();
    proof {
        crate::text::lemma_find_char_bound(cs@, '=');
        crate::text::lemma_find_char_bound(cs@, ' ');
        crate::text::lemma_find_char_bound(cs@, '"');
        if let Some(i) = find_char(cs@, '=') {
            assert(cs@[i as int] == '=');
        }
        if let Some(i) = find_char(cs@, ' ') {
            assert(cs@[i as int] == ' ');
        }
        if let Some(i) = find_char(cs@, '"') {
            assert(cs@[i as int] == '"');
        }
    }
    if bad {
        let mut s = String::new();
        push_str(&mut s, "非法依赖名 `");
        push_str(&mut s, name);
        push_str(&mut s, "`");
        return Err(s);
    }
    Ok(())
}

// ---------------------------------------------------------------------
// Writing then reading a manifest
// ---------------------------------------------------------------------

/// No occurrence of `c` in `s`.
pub open spec fn no_char(s: Seq<char>, c: char) -> bool {
    forall|k: int| 0 <= k < s.len() ==> s[k] != c
}

/// A value that reads back as written: no `#` and no line break.
pub open spec fn safe_value(v: Seq<char>) -> bool {
    no_char(v, '#') && no_char(v, '\n')
}

/// A dependency name that reads back as written: a safe value without `=`,
/// without blanks at its ends, and not starting with `[`.
pub open spec fn safe_key(k: Seq<char>) -> bool {
    safe_value(k) && no_char(k, '=') && trim(k) == k && (k.len() == 0 || k[0] != '[')
}

/// A manifest whose text reads back as itself.
pub open spec fn safe_manifest(m: ManifestView) -> bool {
    &&& sorted_keys(m.deps)
    &&& safe_value(m.name)
    &&& safe_value(m.version)
    &&& safe_value(m.edition)
    &&& forall|i: int|
        0 <= i < m.deps.len() ==> safe_key(#[trigger] m.deps[i].0) && safe_value(m.deps[i].1)
}

/// A line that `lines` gives back unchanged.
pub open spec fn plain_line(l: Seq<char>) -> bool {
    no_char(l, '\n') && (l.len() == 0 || l.last() != '\r')
}

proof fn lemma_unlines_concat(a: Seq<Seq<char>>, b: Seq<Seq<char>>)
    ensures
        unlines(a + b) == unlines(a) + unlines(b),
    decreases a.len(),
{
    if a.len() == 0 {
        assert(a + b =~= b);
        assert(unlines(a) + unlines(b) =~= unlines(b));
    } else {
        lemma_unlines_concat(a.drop_first(), b);
        assert((a + b).drop_first() =~= a.drop_first() + b);
        assert((a + b)[0] == a[0]);
        assert(unlines(a + b) =~= unlines(a) + unlines(b));
    }
}

proof fn lemma_lines_unlines(ls: Seq<Seq<char>>)
    requires
        forall|i: int| 0 <= i < ls.len() ==> plain_line(#[trigger] ls[i]),
    ensures
        lines(unlines(ls)) == ls,
    decreases ls.len(),
{
    if ls.len() == 0 {
        assert(unlines(ls) =~= Seq::<char>::empty());
    } else {
        let l = ls[0];
        let rest = ls.drop_first();
        assert forall|i: int| 0 <= i < rest.len() implies plain_line(#[trigger] rest[i]) by {
            assert(rest[i] == ls[i + 1]);
        }
        lemma_lines_unlines(rest);
        let s = unlines(ls);
        assert(plain_line(ls[0]));
        assert(s == l + seq!['\n'] + unlines(rest));
        assert(s[l.len() as int] == '\n');
        assert forall|k: int| 0 <= k < l.len() implies s[k] != '\n' by {
            assert(s[k] == l[k]);
        }
        lemma_find_char_at(s, '\n', l.len());
        assert(s.take(l.len() as int) =~= l);
        assert(strip_cr(l) == l);
        assert(s.skip(l.len() + 1 as int) =~= unlines(rest));
        assert(lines(s) == seq![l] + rest);
        assert(seq![l] + rest =~= ls);
    }
}

/// A sequence with no blanks at its ends is its own trim.
proof fn lemma_trim_ident(s: Seq<char>)
    requires
        s.len() == 0 || (!is_ws(s[0]) && !is_ws(s.last())),
    ensures
        trim(s) == s,
{
    lemma_lead_ws_at(s, 0);
    assert(trim_start(s) =~= s);
    lemma_trail_ws_at(s, 0);
    assert(trim_end(s) =~= s);
}

/// One leading blank before a non-blank, no trailing blank: trimming drops the blank.
proof fn lemma_trim_one(s: Seq<char>)
    requires
        s.len() >= 2,
        is_ws(s[0]),
        !is_ws(s[1]),
        !is_ws(s.last()),
    ensures
        trim(s) == s.skip(1),
{
    assert forall|k: int| 0 <= k < 1 implies is_ws(#[trigger] s[k]) by {}
    lemma_lead_ws_at(s, 1);
    lemma_trim_ident(s.skip(1));
}

/// A sequence equal to its trim has no blanks at its ends.
proof fn lemma_trimmed_ends(k: Seq<char>)
    requires
        trim(k) == k,
    ensures
        k.len() == 0 || (!is_ws(k[0]) && !is_ws(k.last())),
        lead_ws(k) == 0,
{
    lemma_lead_ws_bound(k);
    let t = trim_start(k);
    lemma_trail_ws_bound(t);
    assert(trim(k).len() == k.len() - lead_ws(k) - trail_ws(t));
    assert(lead_ws(k) == 0);
    assert(t =~= k);
    lemma_trail_ws_bound(k);
}

/// How an entry line reads back: not a header, its first `=` after the name,
/// the name before it and the value after it.
proof fn lemma_entry_parse(k: Seq<char>, v: Seq<char>)
    requires
        safe_key(k),
        safe_value(v),
    ensures
        ({
            let line = trim(strip_comment_of(entry_line(k, v)));
            &&& line.len() > 0
            &&& line[0] != '['
            &&& find_char(line, '=') matches Some(e) && trim(line.take(e as int)) == k && unquote_of(
                trim(line.skip(e + 1 as int)),
            ) == v
        }),
        plain_line(entry_line(k, v)),
{
    reveal_strlit(" = \"");
    reveal_strlit("\"");
    let raw = entry_line(k, v);
    let n = k.len();
    assert(raw =~= k + seq![' ', '=', ' ', '"'] + v + seq!['"']);
    assert forall|i: int| 0 <= i < raw.len() implies raw[i] != '#' && raw[i] != '\n' by {
        if i < n {
            assert(raw[i] == k[i]);
        } else if i >= n + 4 && i < n + 4 + v.len() {
            assert(raw[i] == v[i - n - 4]);
        }
    }
    lemma_find_char_none(raw, '#');
    assert(strip_comment_of(raw) == raw);
    lemma_trimmed_ends(k);
    let lw: int = if n == 0 {
        1
    } else {
        0
    };
    let line = raw.skip(lw);
    if n > 0 {
        assert(raw[0] == k[0]);
        lemma_trim_ident(raw);
        assert(line =~= raw);
    } else {
        lemma_trim_one(raw);
    }
    assert(trim(raw) == line);
    let e: int = n + 1 - lw;
    assert(line[e] == '=');
    assert forall|j: int| 0 <= j < e implies line[j] != '=' by {
        assert(line[j] == raw[j + lw]);
        if j < n {
            assert(raw[j] == k[j]);
        }
    }
    lemma_find_char_at(line, '=', e as nat);
    // the name
    if n > 0 {
        let before = line.take(e);
        assert(before =~= k + seq![' ']);
        lemma_lead_ws_at(before, 0);
        assert(trim_start(before) =~= before);
        assert forall|j: int| before.len() - 1 <= j < before.len() implies is_ws(#[trigger] before[j]) by {}
        assert(before[before.len() - 1 - 1] == k.last());
        lemma_trail_ws_at(before, 1);
        assert(trim(before) =~= k);
    } else {
        assert(line.take(e) =~= Seq::<char>::empty());
        lemma_trim_ident(line.take(e));
        assert(k =~= Seq::<char>::empty());
    }
    // the value
    let w = line.skip(e + 1);
    assert(w =~= seq![' ', '"'] + v + seq!['"']);
    lemma_trim_one(w);
    let q = w.skip(1);
    assert(q =~= seq!['"'] + v + seq!['"']);
    lemma_trim_ident(q);
    assert(q.subrange(1, q.len() - 1) =~= v);
}

/// A header line `[name]` opens section `name`.
proof fn lemma_header_package()
    ensures
        ({
            let line = trim(strip_comment_of("[package]"@));
            &&& line.len() > 0 && line[0] == '[' && line.last() == ']'
            &&& trim(line.subrange(1, line.len() - 1)) == "package"@
        }),
        plain_line("[package]"@),
{
    reveal_strlit("[package]");
    reveal_strlit("package");
    let h = "[package]"@;
    assert(forall|k: int| 0 <= k < h.len() ==> h[k] != '#');
    lemma_find_char_none(h, '#');
    lemma_trim_ident(h);
    assert(h.subrange(1, 8) =~= "package"@);
    lemma_trim_ident("package"@);
}

proof fn lemma_header_dependencies()
    ensures
        ({
            let line = trim(strip_comment_of("[dependencies]"@));
            &&& line.len() > 0 && line[0] == '[' && line.last() == ']'
            &&& trim(line.subrange(1, line.len() - 1)) == "dependencies"@
        }),
        plain_line("[dependencies]"@),
{
    reveal_strlit("[dependencies]");
    reveal_strlit("dependencies");
    let h = "[dependencies]"@;
    assert(forall|k: int| 0 <= k < h.len() ==> h[k] != '#');
    lemma_find_char_none(h, '#');
    lemma_trim_ident(h);
    assert(h.subrange(1, 13) =~= "dependencies"@);
    lemma_trim_ident("dependencies"@);
}

/// The names and section titles the manifest uses are distinct and read back.
proof fn lemma_manifest_words()
    ensures
        safe_key("name"@),
        safe_key("version"@),
        safe_key("edition"@),
        "name"@ != "version"@,
        "name"@ != "edition"@,
        "version"@ != "edition"@,
        "dependencies"@ != "package"@,
{
    reveal_strlit("name");
    reveal_strlit("version");
    reveal_strlit("edition");
    reveal_strlit("dependencies");
    reveal_strlit("package");
    lemma_trim_ident("name"@);
    lemma_trim_ident("version"@);
    lemma_trim_ident("edition"@);
    assert("name"@.len() != "version"@.len());
    assert("name"@.len() != "edition"@.len());
    assert("version"@[0] != "edition"@[0]);
    assert("dependencies"@.len() != "package"@.len());
}

/// Appending the entry named after all others puts it at the end.
proof fn lemma_insert_last(s: Entries, j: int)
    requires
        sorted_keys(s),
        0 <= j < s.len(),
    ensures
        deps_insert(s.take(j), s[j].0, s[j].1) == s.take(j + 1),
{
    let t = s.take(j);
    assert(sorted_keys(t));
    lemma_count_before(t, s[j].0);
    let c = count_before(t, s[j].0);
    if c < j {
        assert(t[c as int] == s[c as int]);
        assert(key_lt(s[c as int].0, s[j].0));
    }
    assert(c == j);
    assert(t.insert(j, (s[j].0, s[j].1)) =~= s.take(j + 1));
}

/// Reading the dependency lines `j..` of a written manifest rebuilds the table.
proof fn lemma_parse_deps(ls: Seq<Seq<char>>, start: nat, s: Entries, base: ManifestView, j: nat)
    requires
        sorted_keys(s),
        forall|i: int| 0 <= i < s.len() ==> safe_key(#[trigger] s[i].0) && safe_value(s[i].1),
        ls.len() == start + s.len(),
        forall|t: int| 0 <= t < s.len() ==> #[trigger] ls[start + t] == entry_line(s[t].0, s[t].1),
        j <= s.len(),
    ensures
        parse_lines(ls, start + j, "dependencies"@, ManifestView { deps: s.take(j as int), ..base })
            == Ok::<ManifestView, Seq<char>>(ManifestView { deps: s, ..base }),
    decreases s.len() - j,
{
    lemma_manifest_words();
    if j < s.len() {
        let k = s[j as int].0;
        let v = s[j as int].1;
        assert(ls[start + j as int] == entry_line(k, v));
        lemma_entry_parse(k, v);
        lemma_insert_last(s, j as int);
        let m = ManifestView { deps: s.take(j as int), ..base };
        assert(apply_entry(m, "dependencies"@, k, v) == ManifestView { deps: s.take(j + 1 as int), ..base });
        lemma_parse_deps(ls, start, s, base, j + 1);
    } else {
        assert(s.take(j as int) =~= s);
    }
}

/// A manifest written out and parsed back is the same manifest, when its names
/// and values hold no `#` or line break, and its dependency names no `=`, no
/// blanks at their ends and no leading `[`.
pub proof fn lemma_manifest_roundtrip(m: ManifestView)
    requires
        safe_manifest(m),
    ensures
        parse_manifest(manifest_text(m)) == Ok::<ManifestView, Seq<char>>(m),
{
    reveal_strlit("# （暂无依赖）");
    lemma_manifest_words();
    lemma_header_package();
    lemma_header_dependencies();
    lemma_entry_parse("name"@, m.name);
    lemma_entry_parse("version"@, m.version);
    lemma_entry_parse("edition"@, m.edition);
    let hl = header_lines(m);
    let comment = "# （暂无依赖）"@;
    let tl = if m.deps.len() == 0 {
        seq![comment]
    } else {
        dep_lines(m.deps)
    };
    let all = hl + tl;
    lemma_unlines_concat(hl, tl);
    assert(manifest_text(m) == unlines(all));
    assert forall|i: int| 0 <= i < all.len() implies plain_line(#[trigger] all[i]) by {
        if i >= 6 {
            if m.deps.len() == 0 {
                assert(all[i] == comment);
            } else {
                assert(all[i] == entry_line(m.deps[i - 6].0, m.deps[i - 6].1));
                lemma_entry_parse(m.deps[i - 6].0, m.deps[i - 6].1);
            }
        } else if i == 4 {
            assert(all[i] == Seq::<char>::empty());
        }
    }
    lemma_lines_unlines(all);
    assert(lines(manifest_text(m)) == all);
    let d0 = default_manifest();
    let d1 = ManifestView { name: m.name, ..d0 };
    let d2 = ManifestView { version: m.version, ..d1 };
    let d3 = ManifestView { edition: m.edition, ..d2 };
    assert(all[0] == "[package]"@);
    assert(all[1] == entry_line("name"@, m.name));
    assert(all[2] == entry_line("version"@, m.version));
    assert(all[3] == entry_line("edition"@, m.edition));
    assert(all[4] == Seq::<char>::empty());
    assert(all[5] == "[dependencies]"@);
    assert(strip_comment_of(Seq::<char>::empty()) == Seq::<char>::empty());
    lemma_trim_ident(Seq::<char>::empty());
    assert(parse_lines(all, 0, seq![], d0) == parse_lines(all, 1, "package"@, d0));
    assert(parse_lines(all, 1, "package"@, d0) == parse_lines(all, 2, "package"@, d1));
    assert(parse_lines(all, 2, "package"@, d1) == parse_lines(all, 3, "package"@, d2));
    assert(parse_lines(all, 3, "package"@, d2) == parse_lines(all, 4, "package"@, d3));
    assert(parse_lines(all, 4, "package"@, d3) == parse_lines(all, 5, "package"@, d3));
    assert(parse_lines(all, 5, "package"@, d3) == parse_lines(all, 6, "dependencies"@, d3));
    if m.deps.len() == 0 {
        assert(all[6] == comment);
        assert(comment[0] == '#');
        lemma_find_char_at(comment, '#', 0);
        assert(strip_comment_of(comment) =~= Seq::<char>::empty());
        assert(parse_lines(all, 6, "dependencies"@, d3) == parse_lines(all, 7, "dependencies"@, d3));
        assert(d3 =~= m);
    } else {
        assert forall|t: int| 0 <= t < m.deps.len() implies #[trigger] all[6 + t] == entry_line(
            m.deps[t].0,
            m.deps[t].1,
        ) by {}
        lemma_parse_deps(all, 6, m.deps, d3, 0);
        assert(m.deps.take(0) =~= Seq::<(Seq<char>, Seq<char>)>::empty());
        assert(ManifestView { deps: m.deps.take(0), ..d3 } == d3);
        assert(ManifestView { deps: m.deps, ..d3 } =~= m);
    }
}

} // verus!
