//! The order of a folder listing: paths sorted as text.
use vstd::prelude::*;
use crate::text::chars_of;

verus! {

broadcast use vstd::seq_lib::to_multiset_insert;

/// `a` sorts before `b` or equals it: characters compared by code point from
/// the left, a proper prefix first. On UTF-8 text this is the order of the
/// bytes.
pub open spec fn text_le(a: Seq<char>, b: Seq<char>) -> bool
    decreases a.len(),
{
    if a.len() == 0 {
        true
    } else if b.len() == 0 {
        false
    } else if a[0] != b[0] {
        a[0] < b[0]
    } else {
        text_le(a.skip(1), b.skip(1))
    }
}

/// Each text of `s` sorts before or equals every later one.
pub open spec fn sorted(s: Seq<Seq<char>>) -> bool {
    forall|i: int, j: int| 0 <= i < j < s.len() ==> text_le(s[i], s[j])
}

/// Any two texts are ordered one way or the other.
pub proof fn lemma_text_le_total(a: Seq<char>, b: Seq<char>)
    ensures
        text_le(a, b) || text_le(b, a),
    decreases a.len(),
{
    if a.len() > 0 && b.len() > 0 && a[0] == b[0] {
        lemma_text_le_total(a.skip(1), b.skip(1));
    }
}

/// The order is transitive.
pub proof fn lemma_text_le_transitive(a: Seq<char>, b: Seq<char>, c: Seq<char>)
    requires
        text_le(a, b),
        text_le(b, c),
    ensures
        text_le(a, c),
    decreases a.len(),
{
    if a.len() > 0 && b.len() > 0 && c.len() > 0 && a[0] == b[0] && b[0] == c[0] {
        lemma_text_le_transitive(a.skip(1), b.skip(1), c.skip(1));
    }
}

/// Two texts each sorting before the other are equal.
pub proof fn lemma_text_le_antisymmetric(a: Seq<char>, b: Seq<char>)
    requires
        text_le(a, b),
        text_le(b, a),
    ensures
        a == b,
    decreases a.len(),
{
    if a.len() > 0 {
        lemma_text_le_antisymmetric(a.skip(1), b.skip(1));
        assert(a =~= seq![a[0]] + a.skip(1));
        assert(b =~= seq![b[0]] + b.skip(1));
    } else {
        assert(b.len() == 0);
        assert(a =~= b);
    }
}

/// Whether `a` sorts before `b` or equals it.
fn le_text(a: &String, b: &String) -> (r: bool)
    ensures
        r == text_le(a@, b@),
{
    let x = chars_of(a.as_str());
    let y = chars_of(b.as_str());
    let mut i: usize = 0;
    assert(x@.skip(0) =~= x@);
    assert(y@.skip(0) =~= y@);
    while i < x.len() && i < y.len() && x[i] == y[i]
        invariant
            i <= x@.len(),
            i <= y@.len(),
            text_le(a@, b@) == text_le(x@.skip(i as int), y@.skip(i as int)),
            x@ == a@,
            y@ == b@,
        decreases x@.len() - i,
    {
        assert(x@.skip(i as int).skip(1) =~= x@.skip(i + 1));
        assert(y@.skip(i as int).skip(1) =~= y@.skip(i + 1));
        i += 1;
    }
    if i == x.len() {
        true
    } else if i == y.len() {
        false
    } else {
        assert(x@.skip(i as int)[0] == x@[i as int]);
        assert(y@.skip(i as int)[0] == y@[i as int]);
        x[i] < y[i]
    }
}

/// `paths` in ascending order of their text, as a folder listing is given.
pub fn sort_paths(paths: Vec<String>) -> (r: Vec<String>)
    ensures
        sorted(r.deep_view()),
        r.deep_view().to_multiset() == paths.deep_view().to_multiset(),
{
    let ghost src = paths.deep_view();
    let mut r: Vec<String> = Vec::new();
    let mut taken: usize = 0;
    let ghost n = paths@.len();
    assert(src.take(0) =~= r.deep_view());
    while taken < paths.len()
        invariant
            paths.deep_view() == src,
            taken <= paths@.len() == n,
            sorted(r.deep_view()),
            r.deep_view().to_multiset() == src.take(taken as int).to_multiset(),
        decreases n - taken,
    {
        let x = paths[taken].clone();
        assert(x@ == src[taken as int]);
        let ghost rv = r.deep_view();
        let mut k: usize = 0;
        while k < r.len() && le_text(&r[k], &x)
            invariant
                k <= r@.len(),
                rv == r.deep_view(),
                forall|i: int| 0 <= i < k ==> text_le(rv[i], x@),
            decreases r@.len() - k,
        {
            k += 1;
        }
        proof {
            if k < rv.len() {
                assert(!text_le(rv[k as int], x@));
                lemma_text_le_total(rv[k as int], x@);
                assert(text_le(x@, rv[k as int]));
            }
        }
        r.insert(k, x);
        proof {
            let nv = rv.insert(k as int, x@);
            assert(r.deep_view() =~= nv);
            assert forall|i: int, j: int| 0 <= i < j < nv.len() implies text_le(nv[i], nv[j]) by {
                if i == k && j - 1 > k {
                    lemma_text_le_transitive(x@, rv[k as int], rv[j - 1]);
                } else if i < k && j - 1 > k {
                    lemma_text_le_transitive(x@, rv[k as int], rv[j - 1]);
                    lemma_text_le_transitive(rv[i], x@, rv[j - 1]);
                } else if i < k && j == k + 1 {
                    lemma_text_le_transitive(rv[i], x@, rv[k as int]);
                }
            }
            assert(src.take(taken + 1) =~= src.take(taken as int).push(src[taken as int]));
            assert(src.take(taken as int).push(src[taken as int]) =~= src.take(taken as int).insert(
                taken as int,
                src[taken as int],
            ));
        }
        taken += 1;
    }
    assert(src.take(n as int) =~= src);
    r
}

} // verus!
