//! Character-sequence toolkit shared by the lexer and the text tools.
//!
//! Every string in the library is modelled by its view, a `Seq<char>`.
//! The spec functions here give the meaning of the few `str` operations
//! that the tools rely on (`trim`, `lines`, `starts_with`, `find`, `join`),
//! and the executable functions implement them on `&[char]`.
use vstd::prelude::*;

verus! {

// ---------------------------------------------------------------------
// Specifications
// ---------------------------------------------------------------------

/// Unicode `White_Space` (the property that `char::is_whitespace` tests).
pub open spec fn is_ws(c: char) -> bool {
    let u = c as u32;
    ||| 0x09 <= u <= 0x0D
    ||| u == 0x20
    ||| u == 0x85
    ||| u == 0xA0
    ||| u == 0x1680
    ||| 0x2000 <= u <= 0x200A
    ||| u == 0x2028
    ||| u == 0x2029
    ||| u == 0x202F
    ||| u == 0x205F
    ||| u == 0x3000
}

pub open spec fn is_digit(c: char) -> bool {
    '0' <= c && c <= '9'
}

pub open spec fn is_ascii_alpha(c: char) -> bool {
    ('a' <= c && c <= 'z') || ('A' <= c && c <= 'Z')
}

/// Number of leading whitespace characters.
pub open spec fn lead_ws(s: Seq<char>) -> nat
    decreases s.len(),
{
    if s.len() > 0 && is_ws(s[0]) {
        1 + lead_ws(s.drop_first())
    } else {
        0
    }
}

/// Number of trailing whitespace characters.
pub open spec fn trail_ws(s: Seq<char>) -> nat
    decreases s.len(),
{
    if s.len() > 0 && is_ws(s.last()) {
        1 + trail_ws(s.drop_last())
    } else {
        0
    }
}

pub open spec fn trim_start(s: Seq<char>) -> Seq<char> {
    s.skip(lead_ws(s) as int)
}

pub open spec fn trim_end(s: Seq<char>) -> Seq<char> {
    s.take(s.len() - trail_ws(s))
}

pub open spec fn trim(s: Seq<char>) -> Seq<char> {
    trim_end(trim_start(s))
}

pub open spec fn starts_with(s: Seq<char>, p: Seq<char>) -> bool {
    p.len() <= s.len() && s.take(p.len() as int) == p
}

pub open spec fn ends_with(s: Seq<char>, p: Seq<char>) -> bool {
    p.len() <= s.len() && s.skip(s.len() - p.len()) == p
}

/// Index of the first occurrence of `c` in `s`.
pub open spec fn find_char(s: Seq<char>, c: char) -> Option<nat>
    decreases s.len(),
{
    if s.len() == 0 {
        None
    } else if s[0] == c {
        Some(0)
    } else {
        match find_char(s.drop_first(), c) {
            Some(i) => Some(i + 1),
            None => None,
        }
    }
}

/// A line as `str::lines` yields it: a `\r` directly before the `\n` is removed.
pub open spec fn strip_cr(l: Seq<char>) -> Seq<char> {
    if l.len() > 0 && l.last() == '\r' {
        l.drop_last()
    } else {
        l
    }
}

/// `str::lines`: split at `\n` (and `\r\n`); a final line ending is optional.
pub open spec fn lines(s: Seq<char>) -> Seq<Seq<char>>
    decreases s.len(),
{
    if s.len() == 0 {
        seq![]
    } else {
        match find_char(s, '\n') {
            Some(i) => {
                proof {
                    lemma_find_char_bound(s, '\n');
                }
                seq![strip_cr(s.take(i as int))] + lines(s.skip(i + 1 as int))
            },
            None => seq![s],
        }
    }
}

/// `parts` joined with `sep` between consecutive parts.
pub open spec fn join(parts: Seq<Seq<char>>, sep: Seq<char>) -> Seq<char>
    decreases parts.len(),
{
    if parts.len() == 0 {
        seq![]
    } else if parts.len() == 1 {
        parts[0]
    } else {
        join(parts.drop_last(), sep) + sep + parts.last()
    }
}

/// The views of a sequence of character vectors.
pub open spec fn views(v: Seq<Vec<char>>) -> Seq<Seq<char>> {
    v.map_values(|x: Vec<char>| x@)
}

pub open spec fn digit_char(d: nat) -> char {
    ((48 + d) as u32) as char
}

/// Decimal digits of `n`, without leading zeros.
pub open spec fn dec(n: nat) -> Seq<char>
    decreases n,
{
    if n < 10 {
        seq![digit_char(n)]
    } else {
        dec(n / 10).push(digit_char(n % 10))
    }
}

// ---------------------------------------------------------------------
// Lemmas
// ---------------------------------------------------------------------

/// Concatenation regroups to the left, the order in which text is appended.
pub broadcast proof fn lemma_concat_regroup(a: Seq<char>, b: Seq<char>, c: Seq<char>)
    ensures
        #[trigger] (a + (b + c)) == (a + b) + c,
{
    assert(a + (b + c) =~= (a + b) + c);
}


pub proof fn lemma_find_char_bound(s: Seq<char>, c: char)
    ensures
        find_char(s, c) matches Some(i) ==> i < s.len() && s[i as int] == c && forall|k: int|
            0 <= k < i ==> s[k] != c,
        find_char(s, c) is None ==> forall|k: int| 0 <= k < s.len() ==> s[k] != c,
    decreases s.len(),
{
    if s.len() > 0 && s[0] != c {
        lemma_find_char_bound(s.drop_first(), c);
        if let Some(i) = find_char(s.drop_first(), c) {
            assert forall|k: int| 0 <= k < i + 1 implies s[k] != c by {
                if k > 0 {
                    assert(s[k] == s.drop_first()[k - 1]);
                }
            }
        } else {
            assert forall|k: int| 0 <= k < s.len() implies s[k] != c by {
                if k > 0 {
                    assert(s[k] == s.drop_first()[k - 1]);
                }
            }
        }
    }
}

/// `find_char` is characterised by its first-occurrence property.
pub proof fn lemma_find_char_at(s: Seq<char>, c: char, i: nat)
    requires
        i < s.len(),
        s[i as int] == c,
        forall|k: int| 0 <= k < i ==> s[k] != c,
    ensures
        find_char(s, c) == Some(i),
{
    lemma_find_char_bound(s, c);
    match find_char(s, c) {
        Some(j) => {
            if j < i {
                assert(s[j as int] == c);
            } else if j > i {
                assert(s[i as int] != c);
            }
        },
        None => {
            assert(s[i as int] != c);
        },
    }
}

pub proof fn lemma_find_char_none(s: Seq<char>, c: char)
    requires
        forall|k: int| 0 <= k < s.len() ==> s[k] != c,
    ensures
        find_char(s, c) is None,
{
    lemma_find_char_bound(s, c);
    if let Some(j) = find_char(s, c) {
        assert(s[j as int] == c);
    }
}

/// A text has no more lines than characters.
pub proof fn lemma_lines_len(s: Seq<char>)
    ensures
        lines(s).len() <= s.len(),
    decreases s.len(),
{
    if s.len() > 0 {
        lemma_find_char_bound(s, '\n');
        if let Some(i) = find_char(s, '\n') {
            lemma_lines_len(s.skip(i + 1 as int));
        }
    }
}

pub proof fn lemma_lead_ws_bound(s: Seq<char>)
    ensures
        lead_ws(s) <= s.len(),
        forall|k: int| 0 <= k < lead_ws(s) ==> is_ws(#[trigger] s[k]),
        lead_ws(s) < s.len() ==> !is_ws(s[lead_ws(s) as int]),
    decreases s.len(),
{
    if s.len() > 0 && is_ws(s[0]) {
        lemma_lead_ws_bound(s.drop_first());
        assert forall|k: int| 0 <= k < lead_ws(s) implies is_ws(#[trigger] s[k]) by {
            if k > 0 {
                assert(s[k] == s.drop_first()[k - 1]);
            }
        }
    }
}

/// `lead_ws` is characterised by: a whitespace prefix of that length followed by a non-space or the end.
pub proof fn lemma_lead_ws_at(s: Seq<char>, n: nat)
    requires
        n <= s.len(),
        forall|k: int| 0 <= k < n ==> is_ws(#[trigger] s[k]),
        n < s.len() ==> !is_ws(s[n as int]),
    ensures
        lead_ws(s) == n,
    decreases n,
{
    if n > 0 {
        assert(is_ws(s[0]));
        assert forall|k: int| 0 <= k < n - 1 implies is_ws(#[trigger] s.drop_first()[k]) by {
            assert(s.drop_first()[k] == s[k + 1]);
        }
        if n - 1 < s.drop_first().len() {
            assert(s.drop_first()[n - 1] == s[n as int]);
        }
        lemma_lead_ws_at(s.drop_first(), (n - 1) as nat);
    } else {
        if s.len() > 0 {
            assert(!is_ws(s[0]));
        }
    }
}

pub proof fn lemma_trail_ws_bound(s: Seq<char>)
    ensures
        trail_ws(s) <= s.len(),
        forall|k: int| s.len() - trail_ws(s) <= k < s.len() ==> is_ws(#[trigger] s[k]),
        trail_ws(s) < s.len() ==> !is_ws(s[s.len() - trail_ws(s) - 1]),
    decreases s.len(),
{
    if s.len() > 0 && is_ws(s.last()) {
        lemma_trail_ws_bound(s.drop_last());
        assert forall|k: int| s.len() - trail_ws(s) <= k < s.len() implies is_ws(#[trigger] s[k]) by {
            if k < s.len() - 1 {
                assert(s[k] == s.drop_last()[k]);
            }
        }
        if trail_ws(s) < s.len() {
            assert(s[s.len() - trail_ws(s) - 1] == s.drop_last()[s.drop_last().len() - trail_ws(
                s.drop_last(),
            ) - 1]);
        }
    }
}

pub proof fn lemma_trail_ws_at(s: Seq<char>, n: nat)
    requires
        n <= s.len(),
        forall|k: int| s.len() - n <= k < s.len() ==> is_ws(#[trigger] s[k]),
        n < s.len() ==> !is_ws(s[s.len() - n - 1]),
    ensures
        trail_ws(s) == n,
    decreases n,
{
    if n > 0 {
        assert(is_ws(s[s.len() - 1]));
        let t = s.drop_last();
        assert forall|k: int| t.len() - (n - 1) <= k < t.len() implies is_ws(#[trigger] t[k]) by {
            assert(t[k] == s[k]);
        }
        if n - 1 < t.len() {
            assert(t[t.len() - (n - 1) - 1] == s[s.len() - n - 1]);
        }
        lemma_trail_ws_at(t, (n - 1) as nat);
    } else {
        if s.len() > 0 {
            assert(!is_ws(s[s.len() - 1]));
        }
    }
}

/// A trimmed-at-the-end sequence has no trailing whitespace.
pub proof fn lemma_trim_end_idem(s: Seq<char>)
    ensures
        trail_ws(trim_end(s)) == 0,
        trim_end(trim_end(s)) == trim_end(s),
{
    lemma_trail_ws_bound(s);
    let t = trim_end(s);
    lemma_trail_ws_at(t, 0);
    assert(t.take(t.len() as int) == t);
}

/// A trimmed-at-the-start sequence has no leading whitespace.
pub proof fn lemma_trim_start_idem(s: Seq<char>)
    ensures
        lead_ws(trim_start(s)) == 0,
        trim_start(trim_start(s)) == trim_start(s),
        trim_start(s).len() > 0 ==> !is_ws(trim_start(s)[0]),
{
    lemma_lead_ws_bound(s);
    let t = trim_start(s);
    if t.len() > 0 {
        assert(t[0] == s[lead_ws(s) as int]);
    }
    lemma_lead_ws_at(t, 0);
    assert(t.skip(0) == t);
}

pub proof fn lemma_dec_len(n: nat)
    ensures
        dec(n).len() >= 1,
        forall|k: int| 0 <= k < dec(n).len() ==> is_digit(#[trigger] dec(n)[k]),
    decreases n,
{
    if n >= 10 {
        lemma_dec_len(n / 10);
        assert forall|k: int| 0 <= k < dec(n).len() implies is_digit(#[trigger] dec(n)[k]) by {
            if k < dec(n).len() - 1 {
                assert(dec(n)[k] == dec(n / 10)[k]);
            }
        }
    }
}

// ---------------------------------------------------------------------
// Trusted std calls
// ---------------------------------------------------------------------

/// `String::push`: the character is appended at the end.
#[verifier::external_body]
pub(crate) fn push_char(s: &mut String, c: char)
    ensures
        final(s)@ == old(s)@.push(c),
{
    s.push(c);
}

// ---------------------------------------------------------------------
// Executable helpers
// ---------------------------------------------------------------------

pub fn char_is_ws(c: char) -> (r: bool)
    ensures
        r == is_ws(c),
{
    let u = c as u32;
    (0x09 <= u && u <= 0x0D) || u == 0x20 || u == 0x85 || u == 0xA0 || u == 0x1680 || (0x2000
        <= u && u <= 0x200A) || u == 0x2028 || u == 0x2029 || u == 0x202F || u == 0x205F || u
        == 0x3000
}

pub fn char_is_digit(c: char) -> (r: bool)
    ensures
        r == is_digit(c),
{
    '0' <= c && c <= '9'
}

/// The characters of a string slice, in order.
pub fn chars_of(s: &str) -> (r: Vec<char>)
    ensures
        r@ == s@,
{
    let mut r: Vec<char> = Vec::new();
    for c in it: s.chars()
        invariant
            r@ == it.seq().take(it.index() as int),
    {
        r.push(c);
    }
    r
}

/// A string holding exactly the given characters.
pub fn string_of(cs: &[char]) -> (r: String)
    ensures
        r@ == cs@,
{
    let mut r = String::new();
    push_chars(&mut r, cs);
    r
}

/// Appends all of `cs` to `s`.
pub fn push_chars(s: &mut String, cs: &[char])
    ensures
        final(s)@ == old(s)@ + cs@,
{
    let mut i: usize = 0;
    while i < cs.len()
        invariant
            i <= cs@.len(),
            s@ == old(s)@ + cs@.take(i as int),
        decreases cs@.len() - i,
    {
        push_char(s, cs[i]);
        i = i + 1;
        assert(cs@.take(i as int) == cs@.take(i - 1).push(cs@[i - 1]));
    }
    assert(cs@.take(cs@.len() as int) == cs@);
}

/// Appends all characters of a string slice to `s`.
pub fn push_str(s: &mut String, t: &str)
    ensures
        final(s)@ == old(s)@ + t@,
{
    let cs = chars_of(t);
    push_chars(s, cs.as_slice());
}

/// `cs[lo..hi]` as a fresh vector.
pub fn slice_chars(cs: &[char], lo: usize, hi: usize) -> (r: Vec<char>)
    requires
        lo <= hi <= cs@.len(),
    ensures
        r@ == cs@.subrange(lo as int, hi as int),
{
    let mut r: Vec<char> = Vec::new();
    let mut i = lo;
    while i < hi
        invariant
            lo <= i <= hi <= cs@.len(),
            r@ == cs@.subrange(lo as int, i as int),
        decreases hi - i,
    {
        r.push(cs[i]);
        i = i + 1;
    }
    r
}

pub fn chars_eq(a: &[char], b: &[char]) -> (r: bool)
    ensures
        r == (a@ == b@),
{
    if a.len() != b.len() {
        return false;
    }
    let mut i: usize = 0;
    while i < a.len()
        invariant
            a@.len() == b@.len(),
            i <= a@.len(),
            forall|k: int| 0 <= k < i ==> a@[k] == b@[k],
        decreases a@.len() - i,
    {
        if a[i] != b[i] {
            return false;
        }
        i = i + 1;
    }
    assert(a@ =~= b@);
    true
}

/// Does `s[at..]` begin with `p`?
pub fn starts_with_at(s: &[char], at: usize, p: &[char]) -> (r: bool)
    requires
        at <= s@.len(),
    ensures
        r == starts_with(s@.skip(at as int), p@),
{
    if p.len() > s.len() - at {
        return false;
    }
    let mut i: usize = 0;
    while i < p.len()
        invariant
            at + p@.len() <= s.len(),
            i <= p@.len(),
            forall|k: int| 0 <= k < i ==> s@[at + k] == p@[k],
        decreases p@.len() - i,
    {
        if s[at + i] != p[i] {
            assert(s@.skip(at as int).take(p@.len() as int)[i as int] == s@[at + i]);
            return false;
        }
        i = i + 1;
    }
    assert(s@.skip(at as int).take(p@.len() as int) =~= p@);
    true
}

pub fn starts_with_chars(s: &[char], p: &[char]) -> (r: bool)
    ensures
        r == starts_with(s@, p@),
{
    let r = starts_with_at(s, 0, p);
    assert(s@.skip(0) == s@);
    r
}

pub fn ends_with_chars(s: &[char], p: &[char]) -> (r: bool)
    ensures
        r == ends_with(s@, p@),
{
    if p.len() > s.len() {
        return false;
    }
    let at = s.len() - p.len();
    let r = starts_with_at(s, at, p);
    assert(s@.skip(at as int).take(p@.len() as int) == s@.skip(at as int));
    r
}

/// Index of the first `c` in `s`.
pub fn find(s: &[char], c: char) -> (r: Option<usize>)
    ensures
        r matches Some(i) ==> find_char(s@, c) == Some(i as nat),
        r is None ==> find_char(s@, c) is None,
{
    let mut i: usize = 0;
    while i < s.len()
        invariant
            i <= s@.len(),
            forall|k: int| 0 <= k < i ==> s@[k] != c,
        decreases s@.len() - i,
    {
        if s[i] == c {
            proof {
                lemma_find_char_at(s@, c, i as nat);
            }
            return Some(i);
        }
        i = i + 1;
    }
    proof {
        lemma_find_char_none(s@, c);
    }
    None
}

pub fn lead_ws_len(s: &[char]) -> (r: usize)
    ensures
        r == lead_ws(s@),
{
    let mut i: usize = 0;
    while i < s.len() && char_is_ws(s[i])
        invariant
            i <= s@.len(),
            forall|k: int| 0 <= k < i ==> is_ws(#[trigger] s@[k]),
        decreases s@.len() - i,
    {
        i = i + 1;
    }
    proof {
        lemma_lead_ws_at(s@, i as nat);
    }
    i
}

pub fn trail_ws_len(s: &[char]) -> (r: usize)
    ensures
        r == trail_ws(s@),
{
    let mut n: usize = 0;
    while n < s.len() && char_is_ws(s[s.len() - 1 - n])
        invariant
            n <= s@.len(),
            forall|k: int| s@.len() - n <= k < s@.len() ==> is_ws(#[trigger] s@[k]),
        decreases s@.len() - n,
    {
        n = n + 1;
    }
    proof {
        lemma_trail_ws_at(s@, n as nat);
    }
    n
}

pub fn trim_start_chars(s: &[char]) -> (r: Vec<char>)
    ensures
        r@ == trim_start(s@),
{
    let k = lead_ws_len(s);
    proof {
        lemma_lead_ws_bound(s@);
    }
    slice_chars(s, k, s.len())
}

pub fn trim_end_chars(s: &[char]) -> (r: Vec<char>)
    ensures
        r@ == trim_end(s@),
{
    let k = trail_ws_len(s);
    proof {
        lemma_trail_ws_bound(s@);
    }
    slice_chars(s, 0, s.len() - k)
}

pub fn trim_chars(s: &[char]) -> (r: Vec<char>)
    ensures
        r@ == trim(s@),
{
    let t = trim_start_chars(s);
    trim_end_chars(t.as_slice())
}

/// `str::lines` on a character sequence.
pub fn split_lines(s: &[char]) -> (r: Vec<Vec<char>>)
    ensures
        views(r@) == lines(s@),
{
    let mut r: Vec<Vec<char>> = Vec::new();
    let mut start: usize = 0;
    let mut i: usize = 0;
    assert(s@.skip(0) == s@);
    assert(views(r@) =~= Seq::<Seq<char>>::empty());
    while i < s.len()
        invariant
            start <= i <= s@.len(),
            forall|k: int| start <= k < i ==> s@[k] != '\n',
            lines(s@) == views(r@) + lines(s@.skip(start as int)),
        decreases s@.len() - i,
    {
        if s[i] == '\n' {
            let piece = slice_chars(s, start, i);
            let ghost rest = s@.skip(start as int);
            proof {
                lemma_find_char_at(rest, '\n', (i - start) as nat);
                assert(rest.take(i - start) == piece@);
                assert(rest.skip(i - start + 1) == s@.skip(i + 1));
            }
            let ghost before = views(r@);
            let line = strip_cr_vec(piece);
            r.push(line);
            proof {
                assert(views(r@) =~= before.push(strip_cr(rest.take(i - start))));
                assert(lines(rest) == seq![strip_cr(rest.take(i - start))] + lines(s@.skip(i + 1)));
            }
            start = i + 1;
        }
        i = i + 1;
    }
    if start < s.len() {
        let ghost rest = s@.skip(start as int);
        proof {
            lemma_find_char_none(rest, '\n');
        }
        let piece = slice_chars(s, start, s.len());
        assert(piece@ == rest);
        let ghost before = views(r@);
        r.push(piece);
        assert(views(r@) =~= before.push(rest));
    }
    assert(s@.skip(start as int).len() == 0 ==> lines(s@.skip(start as int)) == Seq::<Seq<char>>::empty());
    r
}

fn strip_cr_vec(v: Vec<char>) -> (r: Vec<char>)
    ensures
        r@ == strip_cr(v@),
{
    let mut v = v;
    if v.len() > 0 && v[v.len() - 1] == '\r' {
        v.pop();
    }
    v
}

/// `parts` joined with `sep`.
pub fn join_chars(parts: &[Vec<char>], sep: &[char]) -> (r: Vec<char>)
    ensures
        r@ == join(views(parts@), sep@),
{
    let mut r: Vec<char> = Vec::new();
    let mut i: usize = 0;
    while i < parts.len()
        invariant
            i <= parts@.len(),
            r@ == join(views(parts@).take(i as int), sep@),
        decreases parts@.len() - i,
    {
        let ghost prev = views(parts@).take(i as int);
        if i > 0 {
            r.extend_from_slice(sep);
        }
        r.extend_from_slice(parts[i].as_slice());
        i = i + 1;
        proof {
            let cur = views(parts@).take(i as int);
            assert(cur.drop_last() == prev);
            assert(cur.last() == parts@[i - 1]@);
        }
    }
    assert(views(parts@).take(parts@.len() as int) == views(parts@));
    r
}

/// Appends the decimal digits of `n`.
pub fn push_usize(s: &mut String, n: usize)
    ensures
        final(s)@ == old(s)@ + dec(n as nat),
{
    let d = dec_chars(n as u64);
    push_chars(s, d.as_slice());
}

/// Decimal digits of `n`.
pub fn dec_chars(n: u64) -> (r: Vec<char>)
    ensures
        r@ == dec(n as nat),
    decreases n,
{
    if n < 10 {
        let d = ((n as u8) + 48u8) as char;
        assert(d == digit_char(n as nat));
        vec![d]
    } else {
        let mut r = dec_chars(n / 10);
        let d = (((n % 10) as u8) + 48u8) as char;
        assert(d == digit_char((n % 10) as nat));
        r.push(d);
        r
    }
}

} // verus!
