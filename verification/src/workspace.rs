//! Rules of the resume workspace: Unix path names, which files are LaTeX
//! templates, which template names a user may request, and the order in
//! which templates are tried when a workspace is first set up.
//!
//! Reading and copying files is left to the caller; the functions here decide
//! what to read and copy.

use vstd::prelude::*;
use vstd::relations::{sorted_by, total_ordering};
use crate::text::{chars_of, ends_with, ends_with_str, lemma_split_nonempty, split, split_char, trim, trim_str};
use crate::json::str_eq;
use crate::providers::{debug_opt, debug_quoted};
use crate::text::concat3;

verus! {

// ---------------------------------------------------------------------------
// Paths
// ---------------------------------------------------------------------------

/// `base.join(rel)` for Unix paths: an absolute `rel` replaces `base`;
/// otherwise a `'/'` is put between them unless `base` is empty or already
/// ends with one.
pub open spec fn path_join(base: Seq<char>, rel: Seq<char>) -> Seq<char> {
    if rel.len() > 0 && rel[0] == '/' {
        rel
    } else if base.len() > 0 && base.last() != '/' {
        base + seq!['/'] + rel
    } else {
        base + rel
    }
}

pub fn join_path(base: &str, rel: &str) -> (r: String)
    ensures
        r@ == path_join(base@, rel@),
{
    let vb = chars_of(base);
    let vr = chars_of(rel);
    if vr.len() > 0 && vr[0] == '/' {
        return rel.to_owned();
    }
    let mut r = base.to_owned();
    if vb.len() > 0 && vb[vb.len() - 1] != '/' {
        r.push('/');
    }
    r.append(rel);
    proof {
        if vb@.len() > 0 && vb@.last() != '/' {
            assert(r@ =~= base@ + seq!['/'] + rel@);
        } else {
            assert(r@ =~= base@ + rel@);
        }
    }
    r
}

/// A path segment that `Path::components` does not report: empty (from
/// repeated or trailing `'/'`) or `"."` (after the first component).
pub open spec fn is_skipped_segment(seg: Seq<char>) -> bool {
    seg.len() == 0 || seg == seq!['.']
}

pub open spec fn is_parent_segment(seg: Seq<char>) -> bool {
    seg == seq!['.', '.']
}

/// The last segment of a path that names something.
pub open spec fn last_named_segment(segs: Seq<Seq<char>>) -> Option<Seq<char>>
    decreases segs.len(),
{
    if segs.len() == 0 {
        None
    } else if is_skipped_segment(segs.last()) {
        last_named_segment(segs.drop_last())
    } else {
        Some(segs.last())
    }
}

/// `Path::file_name`: the last component, when it is a normal one.
pub open spec fn file_name(path: Seq<char>) -> Option<Seq<char>> {
    match last_named_segment(split(path, '/')) {
        Some(seg) => if is_parent_segment(seg) {
            None
        } else {
            Some(seg)
        },
        None => None,
    }
}

/// Whether a file name has the extension `tex` (`Path::extension` is the
/// text after the last `'.'`, provided something precedes that `'.'`).
pub open spec fn has_tex_extension(name: Seq<char>) -> bool {
    ends_with(name, seq!['.', 't', 'e', 'x']) && name.len() > 4
}

/// `Path::new(name).extension() == Some("tex")`.
pub open spec fn is_tex_path(path: Seq<char>) -> bool {
    match file_name(path) {
        Some(f) => has_tex_extension(f),
        None => false,
    }
}

fn is_skipped_segment_str(seg: &str) -> (r: bool)
    ensures
        r == is_skipped_segment(seg@),
{
    let v = chars_of(seg);
    proof {
        if v@.len() == 1 && v@[0] == '.' {
            assert(v@ =~= seq!['.']);
        }
    }
    v.len() == 0 || (v.len() == 1 && v[0] == '.')
}

fn is_parent_segment_str(seg: &str) -> (r: bool)
    ensures
        r == is_parent_segment(seg@),
{
    let v = chars_of(seg);
    proof {
        if v@.len() == 2 && v@[0] == '.' && v@[1] == '.' {
            assert(v@ =~= seq!['.', '.']);
        }
    }
    v.len() == 2 && v[0] == '.' && v[1] == '.'
}

/// `Path::file_name` of a Unix path.
pub fn file_name_of(path: &str) -> (r: Option<String>)
    ensures
        match r {
            Some(f) => file_name(path@) == Some(f@),
            None => file_name(path@) is None,
        },
{
    let segs = split_char(path, '/');
    let ghost sv = segs.deep_view();
    let mut j: usize = segs.len();
    assert(sv.take(j as int) =~= sv);
    while j > 0 && is_skipped_segment_str(segs[j - 1].as_str())
        invariant
            j <= segs@.len(),
            sv == segs.deep_view(),
            sv == split(path@, '/'),
            last_named_segment(sv) == last_named_segment(sv.take(j as int)),
        decreases j,
    {
        assert(sv.take(j as int).drop_last() =~= sv.take(j - 1));
        j = j - 1;
    }
    if j == 0 {
        assert(sv.take(0).len() == 0);
        return None;
    }
    let seg: &str = segs[j - 1].as_str();
    assert(sv.take(j as int).last() == seg@);
    if is_parent_segment_str(seg) {
        None
    } else {
        Some(seg.to_owned())
    }
}

pub fn has_tex_extension_str(name: &str) -> (r: bool)
    ensures
        r == has_tex_extension(name@),
{
    let ext = ".tex";
    proof {
        reveal_strlit(".tex");
        assert(ext@ =~= seq!['.', 't', 'e', 'x']);
    }
    let n = chars_of(name);
    ends_with_str(name, ext) && n.len() > 4
}

/// Whether a file name or path names a LaTeX source (`*.tex`).
pub fn is_tex_file_name(name: &str) -> (r: bool)
    ensures
        r == is_tex_path(name@),
{
    match file_name_of(name) {
        Some(f) => has_tex_extension_str(f.as_str()),
        None => false,
    }
}

// ---------------------------------------------------------------------------
// Template names
// ---------------------------------------------------------------------------

/// A name that `Path::components` reads as exactly one normal component: no
/// root, no leading `"."`, no `".."`, nothing after it but `'/'` and `"."`.
pub open spec fn is_plain_file_name(name: Seq<char>) -> bool {
    let segs = split(name, '/');
    &&& !is_skipped_segment(segs[0])
    &&& !is_parent_segment(segs[0])
    &&& forall|i: int| 1 <= i < segs.len() ==> is_skipped_segment(#[trigger] segs[i])
}

/// Names a user may ask for as the initial template: a plain file name with
/// the extension `tex`.
pub open spec fn is_valid_template_name(name: Seq<char>) -> bool {
    is_plain_file_name(name) && is_tex_path(name)
}

pub open spec fn invalid_template_message(name: Seq<char>) -> Seq<char> {
    "invalid template name: "@ + name
}

/// Accepts `name` when it is a plain `.tex` file name, and says why not
/// otherwise.
pub fn validate_template_name(name: &str) -> (r: Result<String, String>)
    ensures
        match r {
            Ok(n) => is_valid_template_name(name@) && n@ == name@,
            Err(e) => !is_valid_template_name(name@) && e@ == invalid_template_message(name@),
        },
{
    let segs = split_char(name, '/');
    proof {
        lemma_split_nonempty(name@, '/');
    }
    let ghost sv = segs.deep_view();
    let mut plain: bool = !is_skipped_segment_str(segs[0].as_str())
        && !is_parent_segment_str(segs[0].as_str());
    let mut i: usize = 1;
    while i < segs.len()
        invariant
            1 <= i <= segs@.len(),
            sv == segs.deep_view(),
            sv == split(name@, '/'),
            plain == (!is_skipped_segment(sv[0]) && !is_parent_segment(sv[0]) && forall|k: int|
                1 <= k < i ==> is_skipped_segment(#[trigger] sv[k])),
        decreases segs@.len() - i,
    {
        let skipped = is_skipped_segment_str(segs[i].as_str());
        assert(sv[i as int] == segs@[i as int]@);
        plain = plain && skipped;
        i = i + 1;
    }
    if plain && is_tex_file_name(name) {
        Ok(name.to_owned())
    } else {
        Err(crate::text::concat2("invalid template name: ", name))
    }
}

// ---------------------------------------------------------------------------
// Templates found in a directory
// ---------------------------------------------------------------------------

/// Lexicographic order of texts by code point.  For `String`s it is the
/// order `Ord` gives: UTF-8 keeps the order of code points.
pub open spec fn text_lt(a: Seq<char>, b: Seq<char>) -> bool
    decreases a.len(),
{
    if a.len() == 0 {
        b.len() > 0
    } else if b.len() == 0 {
        false
    } else if a[0] != b[0] {
        a[0] < b[0]
    } else {
        text_lt(a.drop_first(), b.drop_first())
    }
}

pub open spec fn text_le(a: Seq<char>, b: Seq<char>) -> bool {
    a == b || text_lt(a, b)
}

/// The order in which template names are listed.
pub open spec fn text_order() -> spec_fn(Seq<char>, Seq<char>) -> bool {
    |a: Seq<char>, b: Seq<char>| text_le(a, b)
}

proof fn lemma_text_lt_asymmetric(a: Seq<char>, b: Seq<char>)
    ensures
        !(text_lt(a, b) && text_lt(b, a)),
        !text_lt(a, a),
    decreases a.len(),
{
    if a.len() > 0 && b.len() > 0 && a[0] == b[0] {
        lemma_text_lt_asymmetric(a.drop_first(), b.drop_first());
    }
    if a.len() > 0 {
        lemma_text_lt_asymmetric(a.drop_first(), a.drop_first());
    }
}

proof fn lemma_text_lt_transitive(a: Seq<char>, b: Seq<char>, c: Seq<char>)
    requires
        text_lt(a, b),
        text_lt(b, c),
    ensures
        text_lt(a, c),
    decreases a.len(),
{
    if a.len() > 0 && a[0] == b[0] && b[0] == c[0] {
        lemma_text_lt_transitive(a.drop_first(), b.drop_first(), c.drop_first());
    }
}

proof fn lemma_text_lt_total(a: Seq<char>, b: Seq<char>)
    ensures
        a == b || text_lt(a, b) || text_lt(b, a),
    decreases a.len(),
{
    if a.len() == 0 && b.len() == 0 {
        assert(a =~= b);
    } else if a.len() > 0 && b.len() > 0 && a[0] == b[0] {
        lemma_text_lt_total(a.drop_first(), b.drop_first());
        if a.drop_first() == b.drop_first() {
            assert(a.len() == a.drop_first().len() + 1);
            assert(b.len() == b.drop_first().len() + 1);
            assert forall|i: int| 0 <= i < a.len() implies a[i] == b[i] by {
                if i > 0 {
                    assert(a[i] == a.drop_first()[i - 1]);
                    assert(b[i] == b.drop_first()[i - 1]);
                }
            }
            assert(a =~= b);
        }
    }
}

/// The order of texts is a total order.
pub proof fn lemma_text_order_total()
    ensures
        total_ordering(text_order()),
{
    assert forall|x: Seq<char>, y: Seq<char>| #[trigger] text_order()(x, y) && #[trigger] text_order()(y, x) implies x == y by {
        lemma_text_lt_asymmetric(x, y);
    }
    assert forall|x: Seq<char>, y: Seq<char>, z: Seq<char>| #[trigger] text_order()(x, y) && #[trigger] text_order()(y, z) implies text_order()(x, z) by {
        if x != y && y != z {
            lemma_text_lt_transitive(x, y, z);
        }
    }
    assert forall|x: Seq<char>, y: Seq<char>| #[trigger] text_order()(x, y) || #[trigger] text_order()(y, x) by {
        lemma_text_lt_total(x, y);
    }
}

/// Whether `a` comes before `b` in the order of texts.
pub fn text_less(a: &str, b: &str) -> (r: bool)
    ensures
        r == text_lt(a@, b@),
{
    let va = chars_of(a);
    let vb = chars_of(b);
    let mut i: usize = 0;
    assert(a@.skip(0) =~= a@);
    assert(b@.skip(0) =~= b@);
    while i < va.len() && i < vb.len() && va[i] == vb[i]
        invariant
            i <= va@.len(),
            i <= vb@.len(),
            va@ == a@,
            vb@ == b@,
            text_lt(a@, b@) == text_lt(a@.skip(i as int), b@.skip(i as int)),
        decreases va@.len() - i,
    {
        assert(a@.skip(i as int).drop_first() =~= a@.skip(i + 1));
        assert(b@.skip(i as int).drop_first() =~= b@.skip(i + 1));
        assert(a@.skip(i as int)[0] == va@[i as int]);
        assert(b@.skip(i as int)[0] == vb@[i as int]);
        i = i + 1;
    }
    if i == va.len() {
        i < vb.len()
    } else if i == vb.len() {
        false
    } else {
        assert(a@.skip(i as int)[0] == va@[i as int]);
        assert(b@.skip(i as int)[0] == vb@[i as int]);
        va[i] < vb[i]
    }
}

proof fn lemma_insert_to_multiset(s: Seq<Seq<char>>, k: int, x: Seq<char>)
    requires
        0 <= k <= s.len(),
    ensures
        s.insert(k, x).to_multiset() =~= s.to_multiset().insert(x),
{
    broadcast use vstd::multiset::group_multiset_axioms;
    broadcast use vstd::seq_lib::group_to_multiset_ensures;

    let front = s.subrange(0, k);
    let back = s.subrange(k, s.len() as int);
    vstd::seq_lib::lemma_multiset_commutative(front.push(x), back);
    vstd::seq_lib::lemma_multiset_commutative(front, back);
    assert(s =~= front + back);
}

/// The templates among the names of a directory's regular files: the
/// `.tex` files, in the order of their names.
pub fn discover_templates(names: &Vec<String>) -> (r: Vec<String>)
    ensures
        r.deep_view() == names.deep_view().filter(|n: Seq<char>| is_tex_path(n)).sort_by(text_order()),
{
    broadcast use vstd::seq_lib::group_to_multiset_ensures;

    let ghost nv = names.deep_view();
    let ghost keep = |n: Seq<char>| is_tex_path(n);
    let mut out: Vec<String> = Vec::new();
    let mut i: usize = 0;
    assert(out.deep_view().to_multiset() =~= nv.take(0).filter(keep).to_multiset());
    while i < names.len()
        invariant
            i <= names@.len(),
            nv == names.deep_view(),
            keep == (|n: Seq<char>| is_tex_path(n)),
            forall|p: int, q: int|
                0 <= p < q < out@.len() ==> text_le(#[trigger] out.deep_view()[p], #[trigger] out.deep_view()[q]),
            out.deep_view().to_multiset() == nv.take(i as int).filter(keep).to_multiset(),
        decreases names@.len() - i,
    {
        proof {
            lemma_filter_push(nv.take(i as int), keep, nv[i as int]);
            assert(nv.take(i + 1) =~= nv.take(i as int).push(nv[i as int]));
            assert(nv[i as int] == names@[i as int]@);
        }
        if is_tex_file_name(names[i].as_str()) {
            let name = names[i].clone();
            assert(name@ == nv[i as int]);
            let ghost before = out.deep_view();
            let mut k: usize = 0;
            while k < out.len() && !text_less(name.as_str(), out[k].as_str())
                invariant
                    k <= out@.len(),
                    before == out.deep_view(),
                    forall|j: int| 0 <= j < k ==> text_le(#[trigger] before[j], name@),
                decreases out@.len() - k,
            {
                proof {
                    lemma_text_lt_total(before[k as int], name@);
                }
                k = k + 1;
            }
            out.insert(k, name);
            proof {
                let after = out.deep_view();
                assert(after =~= before.insert(k as int, name@));
                lemma_insert_to_multiset(before, k as int, name@);
                assert(keep(nv[i as int]));
                assert(nv.take(i + 1).filter(keep) == nv.take(i as int).filter(keep).push(name@));
                let f = nv.take(i as int).filter(keep);
                f.to_multiset_ensures();
                assert(f.push(name@).to_multiset() =~= f.to_multiset().insert(name@));
                assert(before.to_multiset() == f.to_multiset());
                assert(after.to_multiset() =~= before.to_multiset().insert(name@));
                assert forall|p: int, q: int| 0 <= p < q < after.len() implies text_le(#[trigger] after[p], #[trigger] after[q]) by {
                    if q == k {
                    } else if p == k {
                        // `name` comes before `before[k]`, which comes no later than the rest.
                        assert(text_lt(name@, before[k as int]));
                        assert(after[q] == before[q - 1]);
                        if before[k as int] != before[q - 1] {
                            assert(text_le(before[k as int], before[q - 1]));
                            lemma_text_lt_transitive(name@, before[k as int], before[q - 1]);
                        }
                    } else if p < k && q > k {
                        assert(after[q] == before[q - 1]);
                    } else if p > k {
                        assert(after[p] == before[p - 1]);
                        assert(after[q] == before[q - 1]);
                    }
                }
            }
        } else {
            assert(!keep(nv[i as int]));
            assert(nv.take(i + 1).filter(keep) == nv.take(i as int).filter(keep));
        }
        i = i + 1;
    }
    proof {
        let tex = nv.filter(keep);
        assert(nv.take(nv.len() as int) =~= nv);
        lemma_text_order_total();
        tex.lemma_sort_by_ensures(text_order());
        assert(sorted_by(out.deep_view(), text_order()));
        vstd::seq_lib::lemma_sorted_unique(out.deep_view(), tex.sort_by(text_order()), text_order());
    }
    out
}

// ---------------------------------------------------------------------------
// Candidate order
// ---------------------------------------------------------------------------

/// Adds `name` unless it is already there.
pub open spec fn push_unique(names: Seq<Seq<char>>, name: Seq<char>) -> Seq<Seq<char>> {
    if names.contains(name) {
        names
    } else {
        names.push(name)
    }
}

/// Adds each of `more`, in order, unless already there.
pub open spec fn push_all_unique(names: Seq<Seq<char>>, more: Seq<Seq<char>>) -> Seq<Seq<char>>
    decreases more.len(),
{
    if more.len() == 0 {
        names
    } else {
        push_unique(push_all_unique(names, more.drop_last()), more.last())
    }
}

/// The default template names, most preferred first.
pub open spec fn preferred_templates() -> Seq<Seq<char>> {
    seq!["resume2026.tex"@, "resume.tex"@, "resume-zh_CN.tex"@]
}

/// The names to try, in order, for the first `resume.tex` of a workspace:
/// the requested template (when one is given and not blank), then the
/// preferred defaults that exist, then every other template found.
pub open spec fn template_candidates_spec(
    discovered: Seq<Seq<char>>,
    requested: Option<Seq<char>>,
) -> Result<Seq<Seq<char>>, Seq<char>> {
    let first: Result<Seq<Seq<char>>, Seq<char>> = match requested {
        Some(name) => if trim(name).len() == 0 {
            Ok(Seq::empty())
        } else if is_valid_template_name(name) {
            Ok(seq![name])
        } else {
            Err(invalid_template_message(name))
        },
        None => Ok(Seq::empty()),
    };
    match first {
        Ok(start) => Ok(
            push_all_unique(
                push_all_unique(start, preferred_templates().filter(|p: Seq<char>| discovered.contains(p))),
                discovered,
            ),
        ),
        Err(e) => Err(e),
    }
}

/// Adds `name` to `names` unless an equal name is already there.
pub fn push_unique_name(names: &mut Vec<String>, name: String)
    ensures
        final(names).deep_view() == push_unique(old(names).deep_view(), name@),
{
    let mut i: usize = 0;
    while i < names.len()
        invariant
            i <= names@.len(),
            forall|k: int| 0 <= k < i ==> #[trigger] names.deep_view()[k] != name@,
        decreases names@.len() - i,
    {
        if str_eq(names[i].as_str(), name.as_str()) {
            proof {
                assert(names.deep_view()[i as int] == name@);
                assert(old(names).deep_view().contains(name@));
            }
            return;
        }
        i = i + 1;
    }
    proof {
        assert(!old(names).deep_view().contains(name@));
    }
    let ghost before = names.deep_view();
    names.push(name);
    assert(names.deep_view() =~= before.push(name@));
}

/// Whether `names` holds `name`.
pub fn contains_name(names: &Vec<String>, name: &str) -> (r: bool)
    ensures
        r == names.deep_view().contains(name@),
{
    let mut i: usize = 0;
    while i < names.len()
        invariant
            i <= names@.len(),
            forall|k: int| 0 <= k < i ==> #[trigger] names.deep_view()[k] != name@,
        decreases names@.len() - i,
    {
        if str_eq(names[i].as_str(), name) {
            assert(names.deep_view()[i as int] == name@);
            return true;
        }
        i = i + 1;
    }
    false
}

/// The order in which templates are tried.  `discovered` lists the `.tex`
/// files of the template directory; `requested` is the template the user
/// asked for, if any.
pub fn template_candidates(discovered: &Vec<String>, requested: Option<&str>) -> (r: Result<
    Vec<String>,
    String,
>)
    ensures
        match (r, template_candidates_spec(discovered.deep_view(), opt_view(requested))) {
            (Ok(c), Ok(s)) => c.deep_view() == s,
            (Err(e), Err(s)) => e@ == s,
            _ => false,
        },
{
    let mut candidates: Vec<String> = Vec::new();
    let ghost dv = discovered.deep_view();
    match requested {
        Some(name) => {
            let trimmed = trim_str(name);
            let blank = trimmed.as_str().is_empty();
            if blank {
                assert(candidates.deep_view() =~= Seq::<Seq<char>>::empty());
            } else {
                match validate_template_name(name) {
                    Ok(n) => {
                        candidates.push(n);
                        assert(candidates.deep_view() =~= seq![name@]);
                    },
                    Err(e) => {
                        return Err(e);
                    },
                }
            }
        },
        None => {
            assert(candidates.deep_view() =~= Seq::<Seq<char>>::empty());
        },
    }
    let ghost start = candidates.deep_view();
    let preferred: [&str; 3] = ["resume2026.tex", "resume.tex", "resume-zh_CN.tex"];
    let ghost pv = preferred@.map_values(|s: &str| s@);
    assert(pv =~= preferred_templates());
    let ghost keep = |p: Seq<char>| dv.contains(p);
    let mut i: usize = 0;
    while i < 3
        invariant
            i <= 3,
            dv == discovered.deep_view(),
            pv == preferred_templates(),
            pv == preferred@.map_values(|s: &str| s@),
            keep == (|p: Seq<char>| dv.contains(p)),
            candidates.deep_view() == push_all_unique(start, pv.take(i as int).filter(keep)),
        decreases 3 - i,
    {
        let name: &str = preferred[i];
        assert(name@ == pv[i as int]);
        proof {
            assert(pv.take(i + 1).drop_last() =~= pv.take(i as int));
            crate::workspace::lemma_filter_push(pv.take(i as int), keep, pv[i as int]);
            assert(pv.take(i + 1) =~= pv.take(i as int).push(pv[i as int]));
        }
        if contains_name(discovered, name) {
            push_unique_name(&mut candidates, name.to_owned());
            proof {
                let f = pv.take(i as int).filter(keep);
                assert(pv.take(i + 1).filter(keep) == f.push(pv[i as int]));
                assert(f.push(pv[i as int]).drop_last() =~= f);
            }
        }
        i = i + 1;
    }
    assert(pv.take(3) =~= pv);
    let ghost mid = candidates.deep_view();
    let mut j: usize = 0;
    while j < discovered.len()
        invariant
            j <= discovered@.len(),
            dv == discovered.deep_view(),
            candidates.deep_view() == push_all_unique(mid, dv.take(j as int)),
        decreases discovered@.len() - j,
    {
        push_unique_name(&mut candidates, discovered[j].clone());
        assert(dv.take(j + 1).drop_last() =~= dv.take(j as int));
        j = j + 1;
    }
    assert(dv.take(dv.len() as int) =~= dv);
    Ok(candidates)
}

pub open spec fn opt_view(o: Option<&str>) -> Option<Seq<char>> {
    match o {
        Some(s) => Some(s@),
        None => None,
    }
}

/// The first candidate whose file exists (`exists` is the second of each
/// pair).
pub open spec fn first_existing(candidates: Seq<(String, bool)>) -> Option<Seq<char>>
    decreases candidates.len(),
{
    if candidates.len() == 0 {
        None
    } else if candidates[0].1 {
        Some(candidates[0].0@)
    } else {
        first_existing(candidates.drop_first())
    }
}

pub open spec fn no_template_message(dir: Seq<char>, requested: Option<Seq<char>>) -> Seq<char> {
    "no resume template found in "@ + dir + " (requested: "@ + debug_opt(requested) + ")"@
}

/// The template copied as the first `resume.tex`: the first candidate, in
/// order, whose file exists in `template_dir`; when none does, the error
/// names the directory and the requested template (as `{:?}` prints it).
pub fn choose_template(candidates: &Vec<(String, bool)>, template_dir: &str, requested: Option<&str>) -> (r: Result<String, String>)
    ensures
        match first_existing(candidates@) {
            Some(n) => r matches Ok(x) && x@ == n,
            None => r matches Err(e) && e@ == no_template_message(template_dir@, opt_view(requested)),
        },
{
    let mut i: usize = 0;
    assert(candidates@.skip(0) =~= candidates@);
    while i < candidates.len()
        invariant
            i <= candidates@.len(),
            first_existing(candidates@) == first_existing(candidates@.skip(i as int)),
        decreases candidates@.len() - i,
    {
        assert(candidates@.skip(i as int)[0] == candidates@[i as int]);
        if candidates[i].1 {
            return Ok(candidates[i].0.clone());
        }
        assert(candidates@.skip(i as int).drop_first() =~= candidates@.skip(i + 1));
        i = i + 1;
    }
    let shown = match requested {
        Some(name) => {
            let q = debug_quoted(name);
            concat3("Some(", q.as_str(), ")")
        },
        None => "None".to_owned(),
    };
    let mut e = concat3("no resume template found in ", template_dir, " (requested: ");
    e.append(shown.as_str());
    e.append(")");
    Err(e)
}

pub proof fn lemma_filter_push(s: Seq<Seq<char>>, keep: spec_fn(Seq<char>) -> bool, e: Seq<char>)
    ensures
        keep(e) ==> s.push(e).filter(keep) == s.filter(keep).push(e),
        !keep(e) ==> s.push(e).filter(keep) == s.filter(keep),
{
    reveal(Seq::filter);
    assert(s.push(e).drop_last() =~= s);
}

// ---------------------------------------------------------------------------
// Laws of the candidate order
// ---------------------------------------------------------------------------

/// The names `push_all_unique` keeps: the first ones unchanged in front,
/// each name once, exactly the names of either list.
proof fn lemma_push_all_unique(names: Seq<Seq<char>>, more: Seq<Seq<char>>)
    ensures
        names.no_duplicates() ==> push_all_unique(names, more).no_duplicates(),
        names.len() <= push_all_unique(names, more).len(),
        forall|i: int| 0 <= i < names.len() ==> #[trigger] push_all_unique(names, more)[i] == names[i],
        forall|x: Seq<char>|
            #[trigger] push_all_unique(names, more).contains(x) <==> names.contains(x) || more.contains(x),
    decreases more.len(),
{
    if more.len() > 0 {
        let prev = push_all_unique(names, more.drop_last());
        let e = more.last();
        lemma_push_all_unique(names, more.drop_last());
        let next = push_unique(prev, e);
        if !prev.contains(e) {
            assert forall|i: int, j: int|
                0 <= i < next.len() && 0 <= j < next.len() && i != j && prev.no_duplicates()
                implies next[i] != next[j] by {
                if i == prev.len() {
                    assert(prev[j] != e);
                } else if j == prev.len() {
                    assert(prev[i] != e);
                }
            }
            assert forall|x: Seq<char>| next.contains(x) <==> prev.contains(x) || x == e by {
                if next.contains(x) {
                    let k = choose|k: int| 0 <= k < next.len() && next[k] == x;
                    if k < prev.len() {
                        assert(prev[k] == x);
                    }
                }
                if prev.contains(x) {
                    let k = choose|k: int| 0 <= k < prev.len() && prev[k] == x;
                    assert(next[k] == x);
                }
                if x == e {
                    assert(next[prev.len() as int] == x);
                }
            }
        }
        assert forall|x: Seq<char>| more.contains(x) <==> more.drop_last().contains(x) || x == e by {
            if more.contains(x) {
                let k = choose|k: int| 0 <= k < more.len() && more[k] == x;
                if k < more.len() - 1 {
                    assert(more.drop_last()[k] == x);
                }
            }
            if more.drop_last().contains(x) {
                let k = choose|k: int| 0 <= k < more.len() - 1 && more.drop_last()[k] == x;
                assert(more[k] == x);
            }
            if x == e {
                assert(more[more.len() - 1] == x);
            }
        }
    }
}

/// The order in which templates are tried: the requested template first;
/// every template found is tried, each name once; nothing else is tried;
/// and the preferred defaults that exist come before every other template
/// found.
pub proof fn lemma_candidate_order(discovered: Seq<Seq<char>>, requested: Option<Seq<char>>)
    requires
        template_candidates_spec(discovered, requested) is Ok,
    ensures
        ({
            let c = template_candidates_spec(discovered, requested)->Ok_0;
            &&& c.no_duplicates()
            &&& forall|x: Seq<char>| discovered.contains(x) ==> #[trigger] c.contains(x)
            &&& forall|x: Seq<char>| #[trigger] c.contains(x) ==> discovered.contains(x) || requested == Some(x)
            &&& (requested matches Some(n) ==> (trim(n).len() > 0 ==> c.len() > 0 && c[0] == n))
            &&& forall|i: int, j: int|
                #![trigger c[i], c[j]]
                0 <= i < c.len() && 0 <= j < c.len() && preferred_templates().contains(c[i])
                    && !preferred_templates().contains(c[j]) && requested != Some(c[j]) ==> i < j
        }),
{
    let start: Seq<Seq<char>> = match requested {
        Some(name) => if trim(name).len() == 0 {
            Seq::empty()
        } else {
            seq![name]
        },
        None => Seq::empty(),
    };
    let keep = |p: Seq<char>| discovered.contains(p);
    let pf = preferred_templates().filter(keep);
    let mid = push_all_unique(start, pf);
    let c = push_all_unique(mid, discovered);
    assert(c == template_candidates_spec(discovered, requested)->Ok_0);
    lemma_push_all_unique(start, pf);
    lemma_push_all_unique(mid, discovered);
    preferred_templates().filter_lemma(keep);
    assert(start.no_duplicates());
    assert forall|x: Seq<char>| #[trigger] start.contains(x) implies requested == Some(x) by {
        assert(start[0] == x);
    }
    assert forall|x: Seq<char>| #[trigger] pf.contains(x) implies discovered.contains(x) by {
        let k = choose|k: int| 0 <= k < pf.len() && pf[k] == x;
    }
    assert forall|x: Seq<char>| #[trigger] c.contains(x) implies discovered.contains(x) || requested == Some(x) by {
        if mid.contains(x) {
            if !start.contains(x) {
                assert(pf.contains(x));
            }
        }
    }
    if let Some(n) = requested {
        if trim(n).len() > 0 {
            assert(c[0] == mid[0]);
            assert(mid[0] == start[0]);
        }
    }
    assert forall|i: int, j: int|
        #![trigger c[i], c[j]]
        0 <= i < c.len() && 0 <= j < c.len() && preferred_templates().contains(c[i])
            && !preferred_templates().contains(c[j]) && requested != Some(c[j]) implies i < j by {
        // c[j] is in neither part of `mid`, so it lies after it.
        if j < mid.len() {
            assert(mid[j] == c[j]);
            assert(mid.contains(c[j]));
            if !start.contains(c[j]) {
                assert(pf.contains(c[j]));
                preferred_templates().lemma_filter_contains_rev(keep, c[j]);
            }
        }
        // c[i] is in `mid` (requested or a preferred default found), so it
        // lies within it.
        if !start.contains(c[i]) {
            assert(c.contains(c[i]));
            assert(discovered.contains(c[i]));
            let k = choose|k: int| 0 <= k < preferred_templates().len() && preferred_templates()[k] == c[i];
            assert(keep(preferred_templates()[k]));
        }
        assert(mid.contains(c[i]));
        let m = choose|m: int| 0 <= m < mid.len() && mid[m] == c[i];
        assert(c[m] == c[i]);
    }
}

proof fn lemma_filter_order(s: Seq<Seq<char>>, keep: spec_fn(Seq<char>) -> bool, a: int, b: int)
    requires
        0 <= a < b < s.len(),
        keep(s[a]),
        keep(s[b]),
    ensures
        exists|a2: int, b2: int|
            0 <= a2 < b2 < s.filter(keep).len() && #[trigger] s.filter(keep)[a2] == s[a]
                && #[trigger] s.filter(keep)[b2] == s[b],
    decreases s.len(),
{
    let init = s.drop_last();
    lemma_filter_push(init, keep, s.last());
    assert(init.push(s.last()) =~= s);
    if b == s.len() - 1 {
        init.filter_lemma(keep);
        assert(init[a] == s[a]);
        assert(init.filter(keep).contains(s[a]));
        let a2 = choose|a2: int| 0 <= a2 < init.filter(keep).len() && init.filter(keep)[a2] == s[a];
        let b2 = init.filter(keep).len() as int;
        assert(s.filter(keep)[a2] == s[a] && s.filter(keep)[b2] == s[b]);
    } else {
        assert(init[a] == s[a] && init[b] == s[b]);
        lemma_filter_order(init, keep, a, b);
        let (a2, b2) = choose|a2: int, b2: int|
            0 <= a2 < b2 < init.filter(keep).len() && #[trigger] init.filter(keep)[a2] == init[a]
                && #[trigger] init.filter(keep)[b2] == init[b];
        assert(s.filter(keep)[a2] == s[a] && s.filter(keep)[b2] == s[b]);
    }
}

proof fn lemma_filter_no_duplicates(s: Seq<Seq<char>>, keep: spec_fn(Seq<char>) -> bool)
    requires
        s.no_duplicates(),
    ensures
        s.filter(keep).no_duplicates(),
    decreases s.len(),
{
    if s.len() > 0 {
        let init = s.drop_last();
        assert(init.push(s.last()) =~= s);
        assert(init.no_duplicates()) by {
            assert forall|i: int, j: int| 0 <= i < init.len() && 0 <= j < init.len() && i != j
                implies init[i] != init[j] by {
                assert(init[i] == s[i] && init[j] == s[j]);
            }
        }
        lemma_filter_no_duplicates(init, keep);
        lemma_filter_push(init, keep, s.last());
        if keep(s.last()) {
            let f = init.filter(keep);
            assert(!f.contains(s.last())) by {
                if f.contains(s.last()) {
                    init.lemma_filter_contains_rev(keep, s.last());
                    let k = choose|k: int| 0 <= k < init.len() && init[k] == s.last();
                    assert(s[k] == s[s.len() - 1]);
                }
            }
            assert forall|i: int, j: int| 0 <= i < f.push(s.last()).len() && 0 <= j < f.push(s.last()).len() && i != j
                implies f.push(s.last())[i] != f.push(s.last())[j] by {
                if i == f.len() {
                    assert(f[j] != s.last());
                } else if j == f.len() {
                    assert(f[i] != s.last());
                }
            }
        }
    }
}

/// In `push_all_unique`, two distinct new names keep their order.
proof fn lemma_push_all_unique_order(names: Seq<Seq<char>>, more: Seq<Seq<char>>, a: int, b: int)
    requires
        names.no_duplicates(),
        more.no_duplicates(),
        0 <= a < b < more.len(),
        !names.contains(more[a]),
        !names.contains(more[b]),
    ensures
        forall|i: int, j: int|
            0 <= i < push_all_unique(names, more).len() && 0 <= j < push_all_unique(names, more).len()
                && #[trigger] push_all_unique(names, more)[i] == more[a]
                && #[trigger] push_all_unique(names, more)[j] == more[b] ==> i < j,
    decreases more.len(),
{
    let init = more.drop_last();
    let prev = push_all_unique(names, init);
    let res = push_all_unique(names, more);
    lemma_push_all_unique(names, init);
    lemma_push_all_unique(names, more);
    assert(init[a] == more[a]);
    assert(init.contains(more[a]));
    assert(prev.contains(more[a]));
    let ia = choose|ia: int| 0 <= ia < prev.len() && prev[ia] == more[a];
    assert(res[ia] == more[a]);
    if b == more.len() - 1 {
        assert(!init.contains(more[b])) by {
            if init.contains(more[b]) {
                let k = choose|k: int| 0 <= k < init.len() && init[k] == more[b];
                assert(more[k] == more[b]);
            }
        }
        assert(!prev.contains(more[b]));
        assert(res == prev.push(more[b]));
        assert forall|i: int, j: int|
            0 <= i < res.len() && 0 <= j < res.len() && #[trigger] res[i] == more[a] && #[trigger] res[j]
                == more[b] implies i < j by {
            assert(res[prev.len() as int] == more[b]);
            if j != prev.len() {
                assert(res[j] == res[prev.len() as int]);
            }
            if i != ia {
                assert(res[i] == res[ia]);
            }
        }
    } else {
        assert(init.no_duplicates()) by {
            assert forall|i: int, j: int| 0 <= i < init.len() && 0 <= j < init.len() && i != j
                implies init[i] != init[j] by {
                assert(init[i] == more[i] && init[j] == more[j]);
            }
        }
        assert(init[b] == more[b]);
        lemma_push_all_unique_order(names, init, a, b);
        assert(init.contains(more[b]));
        assert(prev.contains(more[b]));
        let ib = choose|ib: int| 0 <= ib < prev.len() && prev[ib] == more[b];
        assert(res[ib] == more[b]);
        assert(prev[ia] == init[a] && prev[ib] == init[b]);
        assert(ia < ib);
        assert forall|i: int, j: int|
            0 <= i < res.len() && 0 <= j < res.len() && #[trigger] res[i] == more[a] && #[trigger] res[j]
                == more[b] implies i < j by {
            if i != ia {
                assert(res[i] == res[ia]);
            }
            if j != ib {
                assert(res[j] == res[ib]);
            }
        }
    }
}

/// For two preferred defaults `p[a]` before `p[b]` in the order of
/// preference, the first is tried before the second unless the second was
/// asked for.
proof fn lemma_preferred_pair(discovered: Seq<Seq<char>>, requested: Option<Seq<char>>, a: int, b: int)
    requires
        template_candidates_spec(discovered, requested) is Ok,
        0 <= a < b < 3,
        requested != Some(preferred_templates()[b]),
    ensures
        ({
            let c = template_candidates_spec(discovered, requested)->Ok_0;
            forall|i: int, j: int|
                0 <= i < c.len() && 0 <= j < c.len() && #[trigger] c[i] == preferred_templates()[a]
                    && #[trigger] c[j] == preferred_templates()[b] ==> i < j
        }),
{
    let pt = preferred_templates();
    reveal_strlit("resume2026.tex");
    reveal_strlit("resume.tex");
    reveal_strlit("resume-zh_CN.tex");
    assert(pt.no_duplicates()) by {
        assert(pt[0].len() != pt[1].len());
        assert(pt[0].len() != pt[2].len());
        assert(pt[1].len() != pt[2].len());
    }
    let start: Seq<Seq<char>> = match requested {
        Some(name) => if trim(name).len() == 0 {
            Seq::empty()
        } else {
            seq![name]
        },
        None => Seq::empty(),
    };
    let keep = |p: Seq<char>| discovered.contains(p);
    let pf = pt.filter(keep);
    let mid = push_all_unique(start, pf);
    let c = push_all_unique(mid, discovered);
    assert(c == template_candidates_spec(discovered, requested)->Ok_0);
    lemma_candidate_order(discovered, requested);
    lemma_push_all_unique(start, pf);
    lemma_push_all_unique(mid, discovered);
    lemma_filter_no_duplicates(pt, keep);
    assert(start.no_duplicates());
    assert forall|x: Seq<char>| #[trigger] start.contains(x) implies requested == Some(x) by {
        assert(start[0] == x);
    }
    assert forall|i: int, j: int|
        0 <= i < c.len() && 0 <= j < c.len() && #[trigger] c[i] == pt[a] && #[trigger] c[j] == pt[b]
        implies i < j by {
        assert(c.contains(c[j]));
        assert(!start.contains(pt[b]));
        assert(discovered.contains(pt[b]));
        if start.contains(pt[a]) {
            assert(start[0] == pt[a]);
            assert(c[0] == mid[0] && mid[0] == start[0]);
            if i != 0 {
                assert(c[i] == c[0]);
            }
            assert(j != 0);
        } else {
            assert(c.contains(c[i]));
            assert(discovered.contains(pt[a]));
            lemma_filter_order(pt, keep, a, b);
            let (a2, b2) = choose|a2: int, b2: int|
                0 <= a2 < b2 < pf.len() && #[trigger] pf[a2] == pt[a] && #[trigger] pf[b2] == pt[b];
            lemma_push_all_unique_order(start, pf, a2, b2);
            assert(mid.contains(pt[a]) && mid.contains(pt[b]));
            let ma = choose|m: int| 0 <= m < mid.len() && mid[m] == pt[a];
            let mb = choose|m: int| 0 <= m < mid.len() && mid[m] == pt[b];
            assert(c[ma] == pt[a] && c[mb] == pt[b]);
            if i != ma {
                assert(c[i] == c[ma]);
            }
            if j != mb {
                assert(c[j] == c[mb]);
            }
            assert(mid[ma] == pf[a2] && mid[mb] == pf[b2]);
        }
    }
}

/// Among the preferred defaults that exist, `resume2026.tex` is tried before
/// `resume.tex`, and both before `resume-zh_CN.tex`, unless the later one is
/// the template asked for.
pub proof fn lemma_preferred_defaults_order(discovered: Seq<Seq<char>>, requested: Option<Seq<char>>)
    requires
        template_candidates_spec(discovered, requested) is Ok,
    ensures
        ({
            let c = template_candidates_spec(discovered, requested)->Ok_0;
            &&& requested != Some("resume.tex"@) ==> forall|i: int, j: int|
                0 <= i < c.len() && 0 <= j < c.len() && #[trigger] c[i] == "resume2026.tex"@
                    && #[trigger] c[j] == "resume.tex"@ ==> i < j
            &&& requested != Some("resume-zh_CN.tex"@) ==> forall|i: int, j: int|
                0 <= i < c.len() && 0 <= j < c.len() && #[trigger] c[i] == "resume.tex"@
                    && #[trigger] c[j] == "resume-zh_CN.tex"@ ==> i < j
            &&& requested != Some("resume-zh_CN.tex"@) ==> forall|i: int, j: int|
                0 <= i < c.len() && 0 <= j < c.len() && #[trigger] c[i] == "resume2026.tex"@
                    && #[trigger] c[j] == "resume-zh_CN.tex"@ ==> i < j
        }),
{
    let pt = preferred_templates();
    assert(pt[0] == "resume2026.tex"@ && pt[1] == "resume.tex"@ && pt[2] == "resume-zh_CN.tex"@);
    if requested != Some("resume.tex"@) {
        lemma_preferred_pair(discovered, requested, 0, 1);
    }
    if requested != Some("resume-zh_CN.tex"@) {
        lemma_preferred_pair(discovered, requested, 1, 2);
        lemma_preferred_pair(discovered, requested, 0, 2);
    }
}

} // verus!
