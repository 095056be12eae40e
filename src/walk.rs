//! What a recursive walk of a folder hands on: its entries, in walk order.
use vstd::prelude::*;

verus! {

/// An entry found by walking a folder: its path, and whether it was a
/// regular file when it was seen.
pub struct WalkEntry {
    pub path: String,
    pub is_file: bool,
}

/// The paths of the regular files among `es`, in walk order.
pub open spec fn file_paths(es: Seq<WalkEntry>) -> Seq<Seq<char>>
    decreases es.len(),
{
    if es.len() == 0 {
        seq![]
    } else if es.last().is_file {
        file_paths(es.drop_last()).push(es.last().path@)
    } else {
        file_paths(es.drop_last())
    }
}

/// The paths of the regular files among `entries`, in walk order: the
/// files that a bulk operation visits.
pub fn files_among(entries: &Vec<WalkEntry>) -> (r: Vec<String>)
    ensures
        r.deep_view() == file_paths(entries@),
{
    let mut r: Vec<String> = Vec::new();
    let mut i: usize = 0;
    while i < entries.len()
        invariant
            i <= entries@.len(),
            r.deep_view() == file_paths(entries@.take(i as int)),
        decreases entries@.len() - i,
    {
        assert(entries@.take(i + 1).drop_last() =~= entries@.take(i as int));
        if entries[i].is_file {
            let ghost dv = r.deep_view();
            r.push(entries[i].path.clone());
            assert(r.deep_view() =~= dv.push(entries@[i as int].path@));
        }
        i += 1;
    }
    assert(entries@.take(i as int) =~= entries@);
    r
}

/// `p` is the path of a regular file among `es`.
pub open spec fn is_file_among(es: Seq<WalkEntry>, p: Seq<char>) -> bool {
    exists|i: int| 0 <= i < es.len() && es[i].is_file && #[trigger] es[i].path@ == p
}

/// A walk misses no file: every regular file among the entries, at any
/// depth, is visited, and nothing else is.
pub proof fn lemma_files_visited(es: Seq<WalkEntry>)
    ensures
        forall|i: int| 0 <= i < es.len() && #[trigger] es[i].is_file ==> file_paths(es).contains(es[i].path@),
        forall|k: int|
            0 <= k < file_paths(es).len() ==> is_file_among(es, #[trigger] file_paths(es)[k]),
    decreases es.len(),
{
    if es.len() > 0 {
        let init = es.drop_last();
        lemma_files_visited(init);
        let fp = file_paths(es);
        let fi = file_paths(init);
        assert forall|i: int| 0 <= i < es.len() && #[trigger] es[i].is_file implies fp.contains(es[i].path@) by {
            if i < es.len() - 1 {
                assert(init[i] == es[i]);
                let k = choose|k: int| 0 <= k < fi.len() && fi[k] == es[i].path@;
                assert(fp[k] == fi[k]);
            } else {
                assert(fp[fp.len() - 1] == es[i].path@);
            }
        }
        assert forall|k: int| 0 <= k < fp.len() implies is_file_among(es, #[trigger] fp[k]) by {
            if k < fi.len() {
                assert(fp[k] == fi[k]);
                assert(is_file_among(init, fi[k]));
                let i = choose|i: int|
                    0 <= i < init.len() && init[i].is_file && #[trigger] init[i].path@ == fi[k];
                assert(es[i] == init[i]);
            } else {
                assert(es.last().is_file);
                assert(fp[k] == es[es.len() - 1].path@);
                assert(es[es.len() - 1].is_file);
            }
        }
    } else {
        assert(file_paths(es).len() == 0);
    }
}

} // verus!
