//! Folder copy: which file goes where.
use vstd::prelude::*;
use crate::path::{join, join_path, relative_of, relative_path};
use crate::walk::WalkEntry;

verus! {

/// One file copy: the bytes of `source` go to `destination`, replacing what
/// was there.
pub struct CopyStep {
    pub source: String,
    pub destination: String,
}

/// Every entry lies under `from`: its components begin with those of `from`.
pub open spec fn all_under(es: Seq<WalkEntry>, from: Seq<char>) -> bool {
    forall|i: int| 0 <= i < es.len() ==> (#[trigger] relative_of(es[i].path@, from)) is Some
}

/// Where the file at `p`, under `from`, lands under `to`.
pub open spec fn mirrored(p: Seq<char>, from: Seq<char>, to: Seq<char>) -> Seq<char> {
    join_path(to, relative_of(p, from)->0)
}

/// The copies that mirror the regular files among `es` from `from` to
/// `to`, in walk order, as (source, destination) pairs.
pub open spec fn copy_steps(es: Seq<WalkEntry>, from: Seq<char>, to: Seq<char>) -> Seq<
    (Seq<char>, Seq<char>),
>
    decreases es.len(),
{
    if es.len() == 0 {
        seq![]
    } else if es.last().is_file {
        copy_steps(es.drop_last(), from, to).push(
            (es.last().path@, mirrored(es.last().path@, from, to)),
        )
    } else {
        copy_steps(es.drop_last(), from, to)
    }
}

/// The (source, destination) pairs of `steps`.
pub open spec fn step_pairs(steps: Seq<CopyStep>) -> Seq<(Seq<char>, Seq<char>)> {
    steps.map_values(|s: CopyStep| (s.source@, s.destination@))
}

/// The copies that `copy_folder` makes to copy folder `from` to `to`, given
/// the entries of a walk of `from`: each regular file goes to the same
/// place relative to `to`. Folders are not copied as such; they come with
/// the files inside them. `None` where an entry does not lie under `from`.
pub fn copy_folder_plan(from: &str, to: &str, entries: &Vec<WalkEntry>) -> (r: Option<
    Vec<CopyStep>,
>)
    ensures
        r is Some <==> all_under(entries@, from@),
        r matches Some(steps) ==> step_pairs(steps@) == copy_steps(entries@, from@, to@),
{
    let mut steps: Vec<CopyStep> = Vec::new();
    let mut i: usize = 0;
    while i < entries.len()
        invariant
            i <= entries@.len(),
            forall|j: int| 0 <= j < i ==> (#[trigger] relative_of(entries@[j].path@, from@)) is Some,
            step_pairs(steps@) == copy_steps(entries@.take(i as int), from@, to@),
        decreases entries@.len() - i,
    {
        let e = &entries[i];
        let rel = match relative_path(e.path.as_str(), from) {
            Some(rel) => rel,
            None => {
                return None;
            },
        };
        assert(entries@.take(i + 1).drop_last() =~= entries@.take(i as int));
        if e.is_file {
            let destination = join(to, rel.as_str());
            let ghost before = steps@;
            steps.push(CopyStep { source: e.path.clone(), destination });
            assert(step_pairs(steps@) =~= step_pairs(before).push(
                (e.path@, mirrored(e.path@, from@, to@)),
            ));
        }
        i += 1;
    }
    assert(entries@.take(i as int) =~= entries@);
    Some(steps)
}

/// Copying a folder mirrors every file: each regular file among the walked
/// entries is copied to its place relative to the destination.
pub proof fn lemma_copy_mirrors_every_file(
    es: Seq<WalkEntry>,
    from: Seq<char>,
    to: Seq<char>,
    i: int,
)
    requires
        0 <= i < es.len(),
        es[i].is_file,
    ensures
        copy_steps(es, from, to).contains((es[i].path@, mirrored(es[i].path@, from, to))),
    decreases es.len(),
{
    let cs = copy_steps(es, from, to);
    if i < es.len() - 1 {
        lemma_copy_mirrors_every_file(es.drop_last(), from, to, i);
        let prev = copy_steps(es.drop_last(), from, to);
        assert(es.drop_last()[i] == es[i]);
        let k = choose|k: int|
            0 <= k < prev.len() && prev[k] == (es[i].path@, mirrored(es[i].path@, from, to));
        assert(cs[k] == prev[k]);
    } else {
        assert(cs[cs.len() - 1] == (es[i].path@, mirrored(es[i].path@, from, to)));
    }
}

/// Copying a folder writes nowhere else: each copy takes a regular file
/// among the walked entries to its mirrored place, so files under the
/// destination that mirror no source file are left alone.
pub proof fn lemma_copy_writes_only_mirrors(
    es: Seq<WalkEntry>,
    from: Seq<char>,
    to: Seq<char>,
    k: int,
)
    requires
        0 <= k < copy_steps(es, from, to).len(),
    ensures
        exists|i: int|
            0 <= i < es.len() && es[i].is_file && copy_steps(es, from, to)[k] == (
                #[trigger] es[i].path@,
                mirrored(es[i].path@, from, to),
            ),
    decreases es.len(),
{
    let cs = copy_steps(es, from, to);
    let prev = copy_steps(es.drop_last(), from, to);
    if k < prev.len() {
        lemma_copy_writes_only_mirrors(es.drop_last(), from, to, k);
        assert(cs[k] == prev[k]);
        let i = choose|i: int|
            0 <= i < es.drop_last().len() && es.drop_last()[i].is_file && prev[k] == (
                #[trigger] es.drop_last()[i].path@,
                mirrored(es.drop_last()[i].path@, from, to),
            );
        assert(es[i] == es.drop_last()[i]);
    } else {
        assert(es.last().is_file);
        assert(cs[k] == (es[es.len() - 1].path@, mirrored(es[es.len() - 1].path@, from, to)));
    }
}

} // verus!
