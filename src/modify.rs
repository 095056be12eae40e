//! In-place string replacement: what a file's new text is.
use vstd::prelude::*;
use crate::text::{chars_of, push_char};

verus! {

/// `pat` occurs in `s` at position `i`.
pub open spec fn occurs_at(s: Seq<char>, pat: Seq<char>, i: int) -> bool {
    0 <= i && i + pat.len() <= s.len() && s.subrange(i, i + pat.len()) == pat
}

/// `pat` occurs somewhere in `s` (the empty text occurs in every text).
pub open spec fn contains(s: Seq<char>, pat: Seq<char>) -> bool {
    exists|i: int| occurs_at(s, pat, i)
}

/// `s` with every occurrence of `old` replaced by `new`, reading from the
/// left and never reusing a replaced occurrence. An empty `old` occurs
/// before every character and at the end.
pub open spec fn replace_all(s: Seq<char>, old: Seq<char>, new: Seq<char>) -> Seq<char>
    decreases s.len(),
{
    if old.len() == 0 {
        if s.len() == 0 {
            new
        } else {
            new + seq![s[0]] + replace_all(s.skip(1), old, new)
        }
    } else if s.len() < old.len() {
        s
    } else if s.take(old.len() as int) == old {
        new + replace_all(s.skip(old.len() as int), old, new)
    } else {
        seq![s[0]] + replace_all(s.skip(1), old, new)
    }
}

/// Whether `p` occurs in `s` at position `i`.
fn occurs_here(s: &Vec<char>, p: &Vec<char>, i: usize) -> (r: bool)
    requires
        i + p@.len() <= s@.len(),
    ensures
        r == occurs_at(s@, p@, i as int),
{
    let mut k: usize = 0;
    while k < p.len()
        invariant
            k <= p@.len(),
            i + p@.len() <= s@.len(),
            s@.subrange(i as int, i + k) == p@.take(k as int),
        decreases p@.len() - k,
    {
        let sl = s.len();
        assert(i + k < sl);
        if s[i + k] != p[k] {
            assert(s@.subrange(i as int, i + p@.len())[k as int] == s@[i + k]);
            return false;
        }
        assert(s@.subrange(i as int, i + k + 1) =~= s@.subrange(i as int, i + k).push(s@[i + k]));
        assert(p@.take(k + 1) =~= p@.take(k as int).push(p@[k as int]));
        k += 1;
    }
    assert(p@.take(k as int) =~= p@);
    true
}

/// The new text of a file whose text is `text`, after replacing every
/// occurrence of `old_string` by `new_string`: `None` where `old_string`
/// does not occur, and the file is to be left as it is.
pub fn replace_str_in_text(text: &str, old_string: &str, new_string: &str) -> (r: Option<String>)
    ensures
        r is Some <==> contains(text@, old_string@),
        r matches Some(t) ==> t@ == replace_all(text@, old_string@, new_string@),
{
    let s = chars_of(text);
    let p = chars_of(old_string);
    let ghost sv = s@;
    let ghost pv = p@;
    let ghost nv = new_string@;
    let n = s.len();
    let m = p.len();
    let mut r = String::new();
    let mut i: usize = 0;
    assert(sv.skip(0) =~= sv);
    if m == 0 {
        while i < n
            invariant
                i <= n == sv.len(),
                s@ == sv,
                pv.len() == 0,
                nv == new_string@,
                r@ + replace_all(sv.skip(i as int), pv, nv) == replace_all(sv, pv, nv),
            decreases n - i,
        {
            let ghost t = sv.skip(i as int);
            assert(t.skip(1) =~= sv.skip(i + 1));
            assert(t[0] == sv[i as int]);
            assert(replace_all(t, pv, nv) == nv + seq![t[0]] + replace_all(t.skip(1), pv, nv));
            let ghost r0 = r@;
            r.append(new_string);
            push_char(&mut r, s[i]);
            assert(r@ =~= r0 + nv + seq![t[0]]);
            assert(r@ + replace_all(sv.skip(i + 1), pv, nv) =~= replace_all(sv, pv, nv));
            i += 1;
        }
        r.append(new_string);
        assert(sv.skip(n as int) =~= seq![]);
        assert(occurs_at(sv, pv, 0)) by {
            assert(sv.subrange(0, 0) =~= pv);
        }
        return Some(r);
    }
    let mut found = false;
    while i < n
        invariant
            i <= n == sv.len(),
            s@ == sv,
            p@ == pv,
            m == pv.len() > 0,
            nv == new_string@,
            r@ + replace_all(sv.skip(i as int), pv, nv) == replace_all(sv, pv, nv),
            found ==> contains(sv, pv),
            !found ==> forall|j: int| 0 <= j < i ==> !occurs_at(sv, pv, j),
        decreases n - i,
    {
        let ghost t = sv.skip(i as int);
        if m <= n - i && occurs_here(&s, &p, i) {
            assert(t.take(m as int) =~= sv.subrange(i as int, i + m));
            assert(t.skip(m as int) =~= sv.skip(i + m));
            assert(replace_all(t, pv, nv) == nv + replace_all(t.skip(m as int), pv, nv));
            let ghost r0 = r@;
            r.append(new_string);
            assert(r@ == r0 + nv);
            assert(r@ + replace_all(sv.skip(i + m), pv, nv) =~= replace_all(sv, pv, nv));
            found = true;
            i += m;
        } else {
            assert(t.skip(1) =~= sv.skip(i + 1));
            assert(t[0] == sv[i as int]);
            if m <= n - i {
                assert(t.take(m as int) =~= sv.subrange(i as int, i + m));
            } else {
                assert(t =~= seq![t[0]] + t.skip(1));
                assert(replace_all(t.skip(1), pv, nv) == t.skip(1));
            }
            push_char(&mut r, s[i]);
            assert(r@ + replace_all(sv.skip(i + 1), pv, nv) =~= replace_all(sv, pv, nv));
            i += 1;
        }
    }
    assert(sv.skip(i as int) =~= seq![]);
    assert(r@ =~= replace_all(sv, pv, nv));
    if found {
        Some(r)
    } else {
        assert(!contains(sv, pv)) by {
            assert forall|j: int| !occurs_at(sv, pv, j) by {
                if 0 <= j && j < i {
                } else if occurs_at(sv, pv, j) {
                    assert(j + pv.len() <= sv.len());
                }
            }
        }
        None
    }
}

/// Replacing leaves a text without an occurrence as it is: a file that
/// does not contain the old string keeps its exact text.
pub proof fn lemma_replace_without_match(s: Seq<char>, old: Seq<char>, new: Seq<char>)
    requires
        !contains(s, old),
    ensures
        replace_all(s, old, new) == s,
    decreases s.len(),
{
    if old.len() == 0 {
        assert(occurs_at(s, old, 0)) by {
            assert(s.subrange(0, 0) =~= old);
        }
    } else if s.len() >= old.len() {
        assert(s.take(old.len() as int) != old) by {
            if s.take(old.len() as int) == old {
                assert(s.subrange(0, old.len() as int) =~= s.take(old.len() as int));
                assert(occurs_at(s, old, 0));
            }
        }
        let t = s.skip(1);
        assert(!contains(t, old)) by {
            if contains(t, old) {
                let j = choose|j: int| occurs_at(t, old, j);
                assert(t.subrange(j, j + old.len()) =~= s.subrange(j + 1, j + 1 + old.len()));
                assert(occurs_at(s, old, j + 1));
            }
        }
        lemma_replace_without_match(t, old, new);
        assert(s =~= seq![s[0]] + t);
    }
}

} // verus!
