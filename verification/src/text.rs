//! Character-level text operations with their mathematical meaning.
//!
//! Every function here works on the `Seq<char>` view of a string and says
//! exactly which sequence it produces, so that the higher layers (message
//! formatting, configuration parsing, path rules) can state their contracts
//! over the same definitions.

use vstd::prelude::*;

verus! {

/// `String::push` appends one character.
pub assume_specification[ String::push ](s: &mut String, ch: char)
    ensures
        final(s)@ == old(s)@.push(ch),
;

// ---------------------------------------------------------------------------
// Conversions between strings and character vectors
// ---------------------------------------------------------------------------

/// The characters of `s`, in order.
pub fn chars_of(s: &str) -> (v: Vec<char>)
    ensures
        v@ == s@,
{
    let mut v: Vec<char> = Vec::new();
    for c in it: s.chars()
        invariant
            v@ == it.seq().take(it.index()),
    {
        v.push(c);
    }
    proof {
        broadcast use vstd::string::group_string_axioms;
    }
    assert(v@ =~= s@);
    v
}

/// The string made of `v[from..to]`.
pub fn string_of_range(v: &Vec<char>, from: usize, to: usize) -> (s: String)
    requires
        from <= to <= v@.len(),
    ensures
        s@ == v@.subrange(from as int, to as int),
{
    let mut s = String::new();
    let mut i: usize = from;
    while i < to
        invariant
            from <= i <= to <= v@.len(),
            s@ == v@.subrange(from as int, i as int),
        decreases to - i,
    {
        s.push(v[i]);
        i = i + 1;
        assert(s@ =~= v@.subrange(from as int, i as int));
    }
    s
}

/// A fresh string equal to `s`.
pub fn owned(s: &str) -> (r: String)
    ensures
        r@ == s@,
{
    s.to_owned()
}

/// `a` followed by `b`.
pub fn concat2(a: &str, b: &str) -> (r: String)
    ensures
        r@ == a@ + b@,
{
    let mut r = a.to_owned();
    r.append(b);
    r
}

/// `a`, `b`, `c` in sequence.
pub fn concat3(a: &str, b: &str, c: &str) -> (r: String)
    ensures
        r@ == a@ + b@ + c@,
{
    let mut r = a.to_owned();
    r.append(b);
    r.append(c);
    r
}

// ---------------------------------------------------------------------------
// Whitespace and trimming
// ---------------------------------------------------------------------------

/// The characters that Unicode gives the White_Space property; these are the
/// characters for which `char::is_whitespace` holds.
pub open spec fn is_whitespace(c: char) -> bool {
    ||| ('\t' <= c && c <= '\r')
    ||| c == ' '
    ||| c == '\u{85}'
    ||| c == '\u{a0}'
    ||| c == '\u{1680}'
    ||| ('\u{2000}' <= c && c <= '\u{200a}')
    ||| c == '\u{2028}'
    ||| c == '\u{2029}'
    ||| c == '\u{202f}'
    ||| c == '\u{205f}'
    ||| c == '\u{3000}'
}

pub fn is_whitespace_char(c: char) -> (r: bool)
    ensures
        r == is_whitespace(c),
{
    ('\t' <= c && c <= '\r') || c == ' ' || c == '\u{85}' || c == '\u{a0}' || c == '\u{1680}'
        || ('\u{2000}' <= c && c <= '\u{200a}') || c == '\u{2028}' || c == '\u{2029}'
        || c == '\u{202f}' || c == '\u{205f}' || c == '\u{3000}'
}

/// `s` without its leading whitespace.
pub open spec fn trim_start(s: Seq<char>) -> Seq<char>
    decreases s.len(),
{
    if s.len() > 0 && is_whitespace(s[0]) {
        trim_start(s.drop_first())
    } else {
        s
    }
}

/// `s` without its trailing whitespace.
pub open spec fn trim_end(s: Seq<char>) -> Seq<char>
    decreases s.len(),
{
    if s.len() > 0 && is_whitespace(s.last()) {
        trim_end(s.drop_last())
    } else {
        s
    }
}

/// `s` without leading and trailing whitespace (what `str::trim` returns).
pub open spec fn trim(s: Seq<char>) -> Seq<char> {
    trim_end(trim_start(s))
}

/// Position of the first non-whitespace character at or after `from`
/// (or the end of `v`), with the trimming fact it gives.
fn skip_whitespace(v: &Vec<char>, from: usize) -> (i: usize)
    requires
        from <= v@.len(),
    ensures
        from <= i <= v@.len(),
        trim_start(v@.skip(from as int)) == v@.skip(i as int),
        i < v@.len() ==> !is_whitespace(v@[i as int]),
{
    let mut i: usize = from;
    while i < v.len() && is_whitespace_char(v[i])
        invariant
            from <= i <= v@.len(),
            trim_start(v@.skip(from as int)) == trim_start(v@.skip(i as int)),
        decreases v@.len() - i,
    {
        assert(v@.skip(i as int).drop_first() =~= v@.skip(i + 1));
        i = i + 1;
    }
    if i < v.len() {
        assert(v@.skip(i as int)[0] == v@[i as int]);
    } else {
        assert(v@.skip(i as int).len() == 0);
    }
    i
}

/// End of `v[from..to]` once trailing whitespace is dropped.
fn trailing_cut(v: &Vec<char>, from: usize, to: usize) -> (j: usize)
    requires
        from <= to <= v@.len(),
    ensures
        from <= j <= to,
        trim_end(v@.subrange(from as int, to as int)) == v@.subrange(from as int, j as int),
{
    let mut j: usize = to;
    while j > from && is_whitespace_char(v[j - 1])
        invariant
            from <= j <= to <= v@.len(),
            trim_end(v@.subrange(from as int, to as int)) == trim_end(
                v@.subrange(from as int, j as int),
            ),
        decreases j,
    {
        assert(v@.subrange(from as int, j as int).drop_last() =~= v@.subrange(
            from as int,
            j - 1,
        ));
        j = j - 1;
    }
    j
}

/// `str::trim`.
pub fn trim_str(s: &str) -> (r: String)
    ensures
        r@ == trim(s@),
{
    let v = chars_of(s);
    let i = skip_whitespace(&v, 0);
    assert(v@.skip(0) =~= v@);
    let j = trailing_cut(&v, i, v.len());
    assert(v@.skip(i as int) =~= v@.subrange(i as int, v@.len() as int));
    string_of_range(&v, i, j)
}

// ---------------------------------------------------------------------------
// ASCII case
// ---------------------------------------------------------------------------

pub open spec fn ascii_lower(c: char) -> char {
    if 'A' <= c && c <= 'Z' {
        ((c as u32) + 32) as char
    } else {
        c
    }
}

/// What `str::to_ascii_lowercase` returns.
pub open spec fn lower(s: Seq<char>) -> Seq<char> {
    s.map_values(|c: char| ascii_lower(c))
}

pub fn ascii_lower_char(c: char) -> (r: char)
    ensures
        r == ascii_lower(c),
{
    if 'A' <= c && c <= 'Z' {
        let b: u8 = c as u8;
        let l: u8 = b + 32;
        l as char
    } else {
        c
    }
}

/// `str::to_ascii_lowercase`.
pub fn to_ascii_lowercase(s: &str) -> (r: String)
    ensures
        r@ == lower(s@),
{
    let v = chars_of(s);
    let mut r = String::new();
    let mut i: usize = 0;
    while i < v.len()
        invariant
            i <= v@.len(),
            v@ == s@,
            r@ == lower(v@.take(i as int)),
        decreases v@.len() - i,
    {
        let c = ascii_lower_char(v[i]);
        r.push(c);
        i = i + 1;
        assert(lower(v@.take(i as int)) =~= lower(v@.take(i - 1)).push(c));
    }
    assert(v@.take(v@.len() as int) =~= v@);
    r
}

/// Trimming leaves no whitespace at either end.
pub proof fn lemma_trim_ends(s: Seq<char>)
    ensures
        trim(s).len() > 0 ==> !is_whitespace(trim(s)[0]) && !is_whitespace(trim(s).last()),
{
    lemma_trim_start_first(s);
    lemma_trim_end_prefix(trim_start(s));
}

proof fn lemma_trim_start_first(s: Seq<char>)
    ensures
        trim_start(s).len() > 0 ==> !is_whitespace(trim_start(s)[0]),
    decreases s.len(),
{
    if s.len() > 0 && is_whitespace(s[0]) {
        lemma_trim_start_first(s.drop_first());
    }
}

proof fn lemma_trim_end_prefix(s: Seq<char>)
    ensures
        trim_end(s) == s.take(trim_end(s).len() as int),
        trim_end(s).len() <= s.len(),
        trim_end(s).len() > 0 ==> !is_whitespace(trim_end(s).last()),
    decreases s.len(),
{
    if s.len() > 0 && is_whitespace(s.last()) {
        lemma_trim_end_prefix(s.drop_last());
        assert(s.drop_last().take(trim_end(s).len() as int) =~= s.take(trim_end(s).len() as int));
    } else {
        assert(s.take(s.len() as int) =~= s);
    }
}

/// Leading whitespace is a prefix: `trim_start` drops the first `k`
/// characters, all of them whitespace.
pub proof fn lemma_trim_start_split(s: Seq<char>) -> (k: int)
    ensures
        0 <= k <= s.len(),
        trim_start(s) == s.skip(k),
        forall|i: int| 0 <= i < k ==> is_whitespace(#[trigger] s[i]),
    decreases s.len(),
{
    if s.len() > 0 && is_whitespace(s[0]) {
        let k0 = lemma_trim_start_split(s.drop_first());
        assert(s.drop_first().skip(k0) =~= s.skip(k0 + 1));
        assert forall|i: int| 0 <= i < k0 + 1 implies is_whitespace(#[trigger] s[i]) by {
            if i > 0 {
                assert(s[i] == s.drop_first()[i - 1]);
            }
        }
        k0 + 1
    } else {
        assert(s.skip(0) =~= s);
        0
    }
}

/// Whitespace in front of a text that starts with something else is what
/// `trim_start` removes.
pub proof fn lemma_trim_start_after_blank(x: Seq<char>, t: Seq<char>)
    requires
        forall|i: int| 0 <= i < x.len() ==> is_whitespace(#[trigger] x[i]),
        t.len() > 0 ==> !is_whitespace(t[0]),
    ensures
        trim_start(x + t) == t,
    decreases x.len(),
{
    if x.len() > 0 {
        assert((x + t).drop_first() =~= x.drop_first() + t);
        assert forall|i: int| 0 <= i < x.drop_first().len() implies is_whitespace(#[trigger] x.drop_first()[i]) by {
            assert(x.drop_first()[i] == x[i + 1]);
        }
        lemma_trim_start_after_blank(x.drop_first(), t);
    } else {
        assert(x + t =~= t);
    }
}

/// Trailing whitespace of `a + b` lies in `b` when `b` has more than
/// whitespace.
pub proof fn lemma_trim_end_append(a: Seq<char>, b: Seq<char>)
    requires
        trim_end(b).len() > 0,
    ensures
        trim_end(a + b) == a + trim_end(b),
    decreases b.len(),
{
    if b.len() > 0 && is_whitespace(b.last()) {
        assert((a + b).drop_last() =~= a + b.drop_last());
        lemma_trim_end_append(a, b.drop_last());
    }
}

/// A text without whitespace at either end is its own trim.
pub proof fn lemma_trim_of_trimmed(s: Seq<char>)
    requires
        s.len() > 0 ==> !is_whitespace(s[0]) && !is_whitespace(s.last()),
    ensures
        trim(s) == s,
{
}

/// ASCII lowercasing neither makes nor removes whitespace.
proof fn lemma_lower_keeps_whitespace(c: char)
    ensures
        is_whitespace(ascii_lower(c)) == is_whitespace(c),
        ascii_lower(ascii_lower(c)) == ascii_lower(c),
{
    if 'A' <= c && c <= 'Z' {
        assert(('a' as u32) <= (ascii_lower(c) as u32) <= ('z' as u32));
    }
}

/// Trimming and then lowercasing a text a second time changes nothing: the
/// first pass leaves no whitespace at the ends and no ASCII capital.
pub proof fn lemma_trim_lower_idempotent(s: Seq<char>)
    ensures
        lower(trim(lower(trim(s)))) == lower(trim(s)),
{
    let t = trim(s);
    let l = lower(t);
    lemma_trim_ends(s);
    if t.len() > 0 {
        lemma_lower_keeps_whitespace(t[0]);
        lemma_lower_keeps_whitespace(t.last());
        assert(l[0] == ascii_lower(t[0]));
        assert(l.last() == ascii_lower(t.last()));
    }
    lemma_trim_of_trimmed(l);
    assert forall|i: int| 0 <= i < l.len() implies #[trigger] lower(l)[i] == l[i] by {
        lemma_lower_keeps_whitespace(t[i]);
    }
    assert(lower(l) =~= l);
}

/// `str::eq_ignore_ascii_case`.
pub fn eq_ignore_ascii_case(a: &str, b: &str) -> (r: bool)
    ensures
        r == (lower(a@) == lower(b@)),
{
    let va = chars_of(a);
    let vb = chars_of(b);
    if va.len() != vb.len() {
        proof {
            assert(lower(a@).len() != lower(b@).len());
        }
        return false;
    }
    let mut i: usize = 0;
    while i < va.len()
        invariant
            i <= va@.len(),
            va@.len() == vb@.len(),
            va@ == a@,
            vb@ == b@,
            forall|k: int| 0 <= k < i ==> ascii_lower(#[trigger] va@[k]) == ascii_lower(vb@[k]),
        decreases va@.len() - i,
    {
        if ascii_lower_char(va[i]) != ascii_lower_char(vb[i]) {
            proof {
                assert(lower(a@)[i as int] != lower(b@)[i as int]);
            }
            return false;
        }
        i = i + 1;
    }
    assert(lower(a@) =~= lower(b@));
    true
}

// ---------------------------------------------------------------------------
// Prefixes, suffixes and single-character searches
// ---------------------------------------------------------------------------

pub open spec fn starts_with(s: Seq<char>, p: Seq<char>) -> bool {
    p.len() <= s.len() && s.take(p.len() as int) == p
}

pub open spec fn ends_with(s: Seq<char>, p: Seq<char>) -> bool {
    p.len() <= s.len() && s.skip(s.len() - p.len()) == p
}

/// `str::ends_with` for a string suffix.
pub fn ends_with_str(s: &str, p: &str) -> (r: bool)
    ensures
        r == ends_with(s@, p@),
{
    let vs = chars_of(s);
    let vp = chars_of(p);
    if vp.len() > vs.len() {
        return false;
    }
    let n: usize = vs.len();
    let off: usize = n - vp.len();
    let mut i: usize = 0;
    while i < vp.len()
        invariant
            i <= vp@.len(),
            n == vs@.len(),
            off + vp@.len() == vs@.len(),
            vs@ == s@,
            vp@ == p@,
            forall|k: int| 0 <= k < i ==> #[trigger] vp@[k] == vs@[off + k],
        decreases vp@.len() - i,
    {
        if vs[off + i] != vp[i] {
            proof {
                assert(s@.skip(off as int)[i as int] != p@[i as int]);
            }
            return false;
        }
        i = i + 1;
    }
    assert(s@.skip(off as int) =~= p@);
    true
}

/// `str::starts_with` for a string prefix.
pub fn starts_with_str(s: &str, p: &str) -> (r: bool)
    ensures
        r == starts_with(s@, p@),
{
    let vs = chars_of(s);
    let vp = chars_of(p);
    if vp.len() > vs.len() {
        return false;
    }
    let mut i: usize = 0;
    while i < vp.len()
        invariant
            i <= vp@.len() <= vs@.len(),
            vs@ == s@,
            vp@ == p@,
            forall|k: int| 0 <= k < i ==> #[trigger] vp@[k] == vs@[k],
        decreases vp@.len() - i,
    {
        if vs[i] != vp[i] {
            proof {
                assert(s@.take(p@.len() as int)[i as int] != p@[i as int]);
            }
            return false;
        }
        i = i + 1;
    }
    assert(s@.take(p@.len() as int) =~= p@);
    true
}

/// Index of the first occurrence of `c` in `s`.
pub open spec fn find_char(s: Seq<char>, c: char) -> Option<int>
    decreases s.len(),
{
    if s.len() == 0 {
        None
    } else if s[0] == c {
        Some(0)
    } else {
        match find_char(s.drop_first(), c) {
            Some(i) => Some(i + 1),
            None => None,
        }
    }
}

/// A position `i` holding `c` with no `c` before it is what `find_char` returns.
pub proof fn lemma_find_char_at(s: Seq<char>, c: char, i: int)
    requires
        0 <= i <= s.len(),
        forall|k: int| 0 <= k < i ==> s[k] != c,
        i < s.len() ==> s[i] == c,
    ensures
        find_char(s, c) == (if i < s.len() { Some(i) } else { None::<int> }),
    decreases s.len(),
{
    if s.len() > 0 && i > 0 {
        assert forall|k: int| 0 <= k < i - 1 implies s.drop_first()[k] != c by {
            assert(s.drop_first()[k] == s[k + 1]);
        }
        lemma_find_char_at(s.drop_first(), c, i - 1);
    }
}

/// Scans `v[from..]` for `c`; returns its absolute position or `v.len()`.
fn scan_for(v: &Vec<char>, from: usize, c: char) -> (i: usize)
    requires
        from <= v@.len(),
    ensures
        from <= i <= v@.len(),
        find_char(v@.skip(from as int), c) == (if i < v@.len() {
            Some(i - from)
        } else {
            None::<int>
        }),
{
    let mut i: usize = from;
    while i < v.len() && v[i] != c
        invariant
            from <= i <= v@.len(),
            forall|k: int| from <= k < i ==> v@[k] != c,
        decreases v@.len() - i,
    {
        i = i + 1;
    }
    proof {
        let t = v@.skip(from as int);
        assert forall|k: int| 0 <= k < i - from implies t[k] != c by {
            assert(t[k] == v@[k + from]);
        }
        if i < v@.len() {
            assert(t[i - from] == v@[i as int]);
        }
        lemma_find_char_at(t, c, i - from);
    }
    i
}

/// What `str::split_once(c)` returns.
pub open spec fn split_once(s: Seq<char>, c: char) -> Option<(Seq<char>, Seq<char>)> {
    match find_char(s, c) {
        Some(i) => Some((s.take(i), s.skip(i + 1))),
        None => None,
    }
}

/// `str::split_once` with a character pattern.
pub fn split_once_char(s: &str, c: char) -> (r: Option<(String, String)>)
    ensures
        match (r, split_once(s@, c)) {
            (Some((a, b)), Some((x, y))) => a@ == x && b@ == y,
            (None, None) => true,
            _ => false,
        },
{
    let v = chars_of(s);
    let i = scan_for(&v, 0, c);
    assert(v@.skip(0) =~= v@);
    if i < v.len() {
        let a = string_of_range(&v, 0, i);
        let b = string_of_range(&v, i + 1, v.len());
        assert(v@.take(i as int) =~= v@.subrange(0, i as int));
        assert(v@.skip(i + 1) =~= v@.subrange(i + 1, v@.len() as int));
        Some((a, b))
    } else {
        None
    }
}

/// `s` without every leading occurrence of `c` (`str::trim_start_matches(c)`).
pub open spec fn trim_start_char(s: Seq<char>, c: char) -> Seq<char>
    decreases s.len(),
{
    if s.len() > 0 && s[0] == c {
        trim_start_char(s.drop_first(), c)
    } else {
        s
    }
}

/// `s` without every trailing occurrence of `c` (`str::trim_end_matches(c)`).
pub open spec fn trim_end_char(s: Seq<char>, c: char) -> Seq<char>
    decreases s.len(),
{
    if s.len() > 0 && s.last() == c {
        trim_end_char(s.drop_last(), c)
    } else {
        s
    }
}

/// After the trailing `c`s are dropped, the text does not end with `c`, and
/// dropping them again changes nothing.
pub proof fn lemma_trim_end_char(s: Seq<char>, c: char)
    ensures
        trim_end_char(s, c).len() > 0 ==> trim_end_char(s, c).last() != c,
        trim_end_char(trim_end_char(s, c), c) == trim_end_char(s, c),
    decreases s.len(),
{
    if s.len() > 0 && s.last() == c {
        lemma_trim_end_char(s.drop_last(), c);
    }
}

pub fn trim_start_matches_char(s: &str, c: char) -> (r: String)
    ensures
        r@ == trim_start_char(s@, c),
{
    let v = chars_of(s);
    let mut i: usize = 0;
    assert(v@.skip(0) =~= v@);
    while i < v.len() && v[i] == c
        invariant
            i <= v@.len(),
            v@ == s@,
            trim_start_char(s@, c) == trim_start_char(v@.skip(i as int), c),
        decreases v@.len() - i,
    {
        assert(v@.skip(i as int).drop_first() =~= v@.skip(i + 1));
        i = i + 1;
    }
    if i < v.len() {
        assert(v@.skip(i as int)[0] == v@[i as int]);
    }
    assert(v@.skip(i as int) =~= v@.subrange(i as int, v@.len() as int));
    string_of_range(&v, i, v.len())
}

pub fn trim_end_matches_char(s: &str, c: char) -> (r: String)
    ensures
        r@ == trim_end_char(s@, c),
{
    let v = chars_of(s);
    let mut j: usize = v.len();
    assert(v@.subrange(0, v@.len() as int) =~= v@);
    while j > 0 && v[j - 1] == c
        invariant
            j <= v@.len(),
            v@ == s@,
            trim_end_char(s@, c) == trim_end_char(v@.subrange(0, j as int), c),
        decreases j,
    {
        assert(v@.subrange(0, j as int).drop_last() =~= v@.subrange(0, j - 1));
        j = j - 1;
    }
    string_of_range(&v, 0, j)
}

// ---------------------------------------------------------------------------
// Splitting, lines and joining
// ---------------------------------------------------------------------------

/// The pieces of `s` between occurrences of `c` (`str::split(c)`), built
/// one character at a time: a separator starts a new, empty piece.
pub open spec fn split(s: Seq<char>, c: char) -> Seq<Seq<char>>
    decreases s.len(),
{
    if s.len() == 0 {
        seq![Seq::<char>::empty()]
    } else {
        let p = split(s.drop_last(), c);
        if s.last() == c {
            p.push(Seq::<char>::empty())
        } else {
            p.update(p.len() - 1, p.last().push(s.last()))
        }
    }
}

pub proof fn lemma_split_nonempty(s: Seq<char>, c: char)
    ensures
        split(s, c).len() >= 1,
    decreases s.len(),
{
    if s.len() > 0 {
        lemma_split_nonempty(s.drop_last(), c);
    }
}

/// `str::split(c)`, collected.
pub fn split_char(s: &str, c: char) -> (r: Vec<String>)
    ensures
        r.deep_view() == split(s@, c),
{
    let v = chars_of(s);
    let mut pieces: Vec<String> = Vec::new();
    let mut start: usize = 0;
    let mut i: usize = 0;
    proof {
        assert(pieces.deep_view() =~= Seq::<Seq<char>>::empty());
        assert(v@.take(0) =~= Seq::<char>::empty());
        assert(v@.subrange(0, 0) =~= Seq::<char>::empty());
        assert(pieces.deep_view().push(v@.subrange(0, 0)) =~= split(v@.take(0), c));
    }
    while i < v.len()
        invariant
            start <= i <= v@.len(),
            v@ == s@,
            pieces.deep_view().push(v@.subrange(start as int, i as int)) == split(
                v@.take(i as int),
                c,
            ),
        decreases v@.len() - i,
    {
        proof {
            lemma_split_nonempty(v@.take(i as int), c);
            assert(v@.take(i + 1).drop_last() =~= v@.take(i as int));
        }
        if v[i] == c {
            let piece = string_of_range(&v, start, i);
            pieces.push(piece);
            start = i + 1;
            assert(v@.subrange(start as int, i + 1) =~= Seq::<char>::empty());
        } else {
            assert(v@.subrange(start as int, i + 1) =~= v@.subrange(start as int, i as int).push(
                v@[i as int],
            ));
        }
        i = i + 1;
        assert(pieces.deep_view().push(v@.subrange(start as int, i as int)) =~= split(
            v@.take(i as int),
            c,
        ));
    }
    let last = string_of_range(&v, start, v.len());
    pieces.push(last);
    assert(v@.take(v@.len() as int) =~= v@);
    assert(pieces.deep_view() =~= split(s@, c));
    pieces
}

/// `s` without one trailing `'\r'`, if it has one.
pub open spec fn strip_cr(s: Seq<char>) -> Seq<char> {
    if s.len() > 0 && s.last() == '\r' {
        s.drop_last()
    } else {
        s
    }
}

/// What `str::lines` yields: the pieces between `'\n'`, where a piece that a
/// `'\n'` ends also loses one `'\r'` before it, and where a final empty piece
/// (after a last `'\n'`, or of the empty string) is not a line.
pub open spec fn lines(s: Seq<char>) -> Seq<Seq<char>> {
    let p = split(s, '\n');
    let n: int = if p.last().len() == 0 {
        p.len() - 1
    } else {
        p.len() as int
    };
    Seq::new(n as nat, |i: int| if i < p.len() - 1 { strip_cr(p[i]) } else { p[i] })
}

/// `str::lines`, collected.
pub fn lines_of(s: &str) -> (r: Vec<String>)
    ensures
        r.deep_view() == lines(s@),
{
    let parts = split_char(s, '\n');
    proof {
        lemma_split_nonempty(s@, '\n');
    }
    let total: usize = parts.len();
    let last_empty: bool = parts[total - 1].as_str().is_empty();
    let n: usize = if last_empty { total - 1 } else { total };
    let mut out: Vec<String> = Vec::new();
    let mut i: usize = 0;
    while i < n
        invariant
            i <= n <= total == parts@.len(),
            parts.deep_view() == split(s@, '\n'),
            n == (if split(s@, '\n').last().len() == 0 { total - 1 } else { total as int }),
            out.deep_view() =~= lines(s@).take(i as int),
        decreases n - i,
    {
        let piece: &str = parts[i].as_str();
        assert(piece@ == split(s@, '\n')[i as int]);
        let line: String = if i + 1 < total {
            let pv = chars_of(piece);
            if pv.len() > 0 && pv[pv.len() - 1] == '\r' {
                let t = string_of_range(&pv, 0, pv.len() - 1);
                assert(pv@.subrange(0, pv@.len() - 1) =~= pv@.drop_last());
                t
            } else {
                piece.to_owned()
            }
        } else {
            piece.to_owned()
        };
        assert(line@ == lines(s@)[i as int]);
        let ghost before = out.deep_view();
        out.push(line);
        assert(out.deep_view() =~= before.push(lines(s@)[i as int]));
        assert(lines(s@).take(i + 1) =~= lines(s@).take(i as int).push(lines(s@)[i as int]));
        i = i + 1;
    }
    out
}

/// The parts of `parts` with `sep` between each two (`[..].join(sep)`).
pub open spec fn join(parts: Seq<Seq<char>>, sep: Seq<char>) -> Seq<char>
    decreases parts.len(),
{
    if parts.len() == 0 {
        Seq::empty()
    } else if parts.len() == 1 {
        parts[0]
    } else {
        join(parts.drop_last(), sep) + sep + parts.last()
    }
}

/// `slice.join(sep)` over strings.
pub fn join_strings(parts: &Vec<String>, sep: &str) -> (r: String)
    ensures
        r@ == join(parts.deep_view(), sep@),
{
    let mut r = String::new();
    let mut i: usize = 0;
    while i < parts.len()
        invariant
            i <= parts@.len(),
            r@ == join(parts.deep_view().take(i as int), sep@),
        decreases parts@.len() - i,
    {
        if i > 0 {
            r.append(sep);
        }
        r.append(parts[i].as_str());
        i = i + 1;
        assert(parts.deep_view().take(i as int).drop_last() =~= parts.deep_view().take(i - 1));
    }
    assert(parts.deep_view().take(parts@.len() as int) =~= parts.deep_view());
    r
}

// ---------------------------------------------------------------------------
// Decimal numbers
// ---------------------------------------------------------------------------

pub open spec fn digit_char(d: nat) -> char
    recommends
        d < 10,
{
    ((d + 48) as u32) as char
}

/// Decimal text of `n` without leading zeros (`n.to_string()`).
pub open spec fn decimal(n: nat) -> Seq<char>
    decreases n,
{
    if n < 10 {
        seq![digit_char(n)]
    } else {
        decimal(n / 10).push(digit_char(n % 10))
    }
}

/// Appends the decimal text of `n` to `s`.
pub fn push_decimal(s: &mut String, n: u64)
    ensures
        final(s)@ == old(s)@ + decimal(n as nat),
    decreases n,
{
    if n >= 10 {
        push_decimal(s, n / 10);
    }
    let d: u8 = (n % 10) as u8;
    let c: char = (d + 48) as char;
    s.push(c);
    proof {
        if n >= 10 {
            assert(decimal(n as nat) == decimal((n / 10) as nat).push(digit_char((n % 10) as nat)));
        }
        assert(final(s)@ =~= old(s)@ + decimal(n as nat));
    }
}

/// `n.to_string()`.
pub fn decimal_string(n: u64) -> (r: String)
    ensures
        r@ == decimal(n as nat),
{
    let mut r = String::new();
    push_decimal(&mut r, n);
    assert(r@ =~= decimal(n as nat));
    r
}

pub open spec fn is_digit(c: char) -> bool {
    '0' <= c && c <= '9'
}

/// The number that the decimal digits `s` denote.
pub open spec fn digits_value(s: Seq<char>) -> nat
    decreases s.len(),
{
    if s.len() == 0 {
        0
    } else {
        digits_value(s.drop_last()) * 10 + ((s.last() as u32) - 48) as nat
    }
}

/// The digits that unsigned `from_str` reads: one leading `'+'` is skipped
/// when something follows it.
pub open spec fn unsigned_digits(s: Seq<char>) -> Seq<char> {
    if s.len() > 1 && s[0] == '+' {
        s.drop_first()
    } else {
        s
    }
}

/// What `<uN as FromStr>::from_str` accepts for a type whose largest value
/// is `max`: a nonempty run of ASCII digits (after an optional `'+'`) whose
/// value is at most `max`.
pub open spec fn parse_unsigned(s: Seq<char>, max: nat) -> Option<nat> {
    let d = unsigned_digits(s);
    if d.len() > 0 && (forall|i: int| 0 <= i < d.len() ==> is_digit(#[trigger] d[i]))
        && digits_value(d) <= max {
        Some(digits_value(d))
    } else {
        None
    }
}

proof fn lemma_digits_value_grows(s: Seq<char>, i: int, j: int)
    requires
        0 <= i <= j <= s.len(),
        forall|k: int| 0 <= k < s.len() ==> is_digit(#[trigger] s[k]),
    ensures
        digits_value(s.take(i)) <= digits_value(s.take(j)),
    decreases j - i,
{
    if i < j {
        lemma_digits_value_grows(s, i, j - 1);
        assert(s.take(j).drop_last() =~= s.take(j - 1));
    }
}

proof fn lemma_decimal_digits(n: nat)
    ensures
        decimal(n).len() > 0,
        forall|i: int| 0 <= i < decimal(n).len() ==> is_digit(#[trigger] decimal(n)[i]),
        digits_value(decimal(n)) == n,
        decimal(n)[0] != '+',
    decreases n,
{
    let d: nat = n % 10;
    assert((digit_char(d) as u32) == d + 48);
    let s = decimal(n);
    if n >= 10 {
        lemma_decimal_digits(n / 10);
        assert(s.drop_last() =~= decimal(n / 10));
        assert(s.last() == digit_char(d));
        assert(digits_value(s) == digits_value(decimal(n / 10)) * 10 + d);
        assert((n / 10) * 10 + d == n);
        assert(s[0] == decimal(n / 10)[0]);
        assert forall|i: int| 0 <= i < s.len() implies #[trigger] is_digit(s[i]) by {
            if i < s.len() - 1 {
                assert(s[i] == decimal(n / 10)[i]);
            }
        }
    } else {
        assert(s.drop_last() =~= Seq::<char>::empty());
        assert(digits_value(s) == digits_value(s.drop_last()) * 10 + d);
    }
}

/// Reading the decimal text of a number gives the number back, whenever it
/// is within the accepted range.
pub proof fn lemma_decimal_round_trip(n: nat, max: nat)
    requires
        n <= max,
    ensures
        parse_unsigned(decimal(n), max) == Some(n),
{
    lemma_decimal_digits(n);
}

/// `str::parse::<u64>()`, with the largest accepted value `max`.
pub fn parse_unsigned_str(s: &str, max: u64) -> (r: Option<u64>)
    ensures
        match r {
            Some(n) => parse_unsigned(s@, max as nat) == Some(n as nat),
            None => parse_unsigned(s@, max as nat) is None,
        },
{
    let v = chars_of(s);
    let start: usize = if v.len() > 1 && v[0] == '+' { 1 } else { 0 };
    let ghost d = unsigned_digits(s@);
    assert(d =~= v@.skip(start as int));
    if start >= v.len() {
        assert(d.len() == 0);
        return None;
    }
    let mut value: u64 = 0;
    let mut i: usize = start;
    while i < v.len()
        invariant
            start < v@.len(),
            start <= i <= v@.len(),
            v@ == s@,
            d == v@.skip(start as int),
            d == unsigned_digits(s@),
            forall|k: int| 0 <= k < i - start ==> is_digit(#[trigger] d[k]),
            value as nat == digits_value(d.take(i - start)),
            value <= max,
        decreases v@.len() - i,
    {
        let c = v[i];
        assert(c == d[i - start]);
        if !('0' <= c && c <= '9') {
            proof {
                let k: int = i - start;
                assert(!is_digit(d[k]));
                assert(!(forall|m: int| 0 <= m < d.len() ==> is_digit(#[trigger] d[m])));
            }
            return None;
        }
        let dv: u64 = ((c as u32) - 48) as u64;
        assert(d.take(i - start + 1).drop_last() =~= d.take(i - start));
        if dv > max || value > (max - dv) / 10 {
            proof {
                if dv <= max {
                    assert(value * 10 + dv > max) by (nonlinear_arith)
                        requires
                            value > (max - dv) / 10,
                            dv <= max,
                    {}
                }
                let k: int = i - start;
                assert(d.take(k + 1).last() == c);
                assert(digits_value(d.take(k + 1)) == digits_value(d.take(k)) * 10 + dv);
                if forall|m: int| 0 <= m < d.len() ==> is_digit(#[trigger] d[m]) {
                    lemma_digits_value_grows(d, k + 1, d.len() as int);
                    assert(d.take(d.len() as int) =~= d);
                    assert(digits_value(d) > max);
                }
            }
            return None;
        }
        value = value * 10 + dv;
        i = i + 1;
    }
    assert(d.take(d.len() as int) =~= d);
    Some(value)
}

} // verus!
