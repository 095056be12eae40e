//! The folder tree diagram: one line per entry, drawn with box characters.
use vstd::prelude::*;
use crate::path::{get_last_path_component, last_component_of};
use crate::text::push_char;

verus! {

/// A folder or file as the tree printer sees it: its path, and the entries
/// directly inside it in the order they are drawn (none for a file or an
/// empty folder).
pub struct FolderEntry {
    pub path: String,
    pub children: Vec<FolderEntry>,
}

/// Every entry below `e` has a non-empty path.
pub open spec fn well_formed(e: FolderEntry) -> bool
    decreases e,
{
    forall|i: int|
        0 <= i < e.children@.len() ==> #[trigger] e.children@[i].path@.len() > 0 && well_formed(
            e.children@[i],
        )
}

/// The connector in front of an entry's name: a corner for the last one
/// among its siblings, a tee for the others.
pub open spec fn connector(last: bool) -> Seq<char> {
    if last {
        seq!['\u{2514}', '\u{2500}', '\u{2500}', ' ']
    } else {
        seq!['\u{251c}', '\u{2500}', '\u{2500}', ' ']
    }
}

/// What an entry adds to the indentation of its children: blank after the
/// last sibling, a vertical bar after the others.
pub open spec fn padding(last: bool) -> Seq<char> {
    if last {
        seq![' ', ' ', ' ', ' ']
    } else {
        seq!['\u{2502}', ' ', ' ', ' ']
    }
}

/// The lines of entry `e` and everything below it, indented by `prefix`.
pub open spec fn entry_text(e: FolderEntry, prefix: Seq<char>, last: bool) -> Seq<char>
    decreases e,
{
    prefix + connector(last) + last_component_of(e.path@) + seq!['\n'] + children_text(
        e.children@,
        prefix + padding(last),
    )
}

/// The lines of the sibling entries `cs`, in order, indented by `prefix`.
pub open spec fn children_text(cs: Seq<FolderEntry>, prefix: Seq<char>) -> Seq<char>
    decreases cs,
{
    if cs.len() == 0 {
        seq![]
    } else {
        entry_text(cs[0], prefix, cs.len() == 1) + children_text(cs.skip(1), prefix)
    }
}

/// The whole diagram of `tree`: its path on the first line, then its
/// entries.
pub open spec fn tree_text(tree: FolderEntry) -> Seq<char> {
    tree.path@ + seq!['\n'] + children_text(tree.children@, seq![])
}

fn push_connector(out: &mut String, last: bool)
    ensures
        final(out)@ == old(out)@ + connector(last),
{
    push_char(out, if last { '\u{2514}' } else { '\u{251c}' });
    push_char(out, '\u{2500}');
    push_char(out, '\u{2500}');
    push_char(out, ' ');
    assert(final(out)@ =~= old(out)@ + connector(last));
}

fn push_padding(out: &mut String, last: bool)
    ensures
        final(out)@ == old(out)@ + padding(last),
{
    push_char(out, if last { ' ' } else { '\u{2502}' });
    push_char(out, ' ');
    push_char(out, ' ');
    push_char(out, ' ');
    assert(final(out)@ =~= old(out)@ + padding(last));
}

fn write_entry(e: &FolderEntry, prefix: &String, last: bool, out: &mut String)
    requires
        e.path@.len() > 0,
        well_formed(*e),
    ensures
        final(out)@ == old(out)@ + entry_text(*e, prefix@, last),
    decreases e,
{
    out.append(prefix.as_str());
    push_connector(out, last);
    let name = get_last_path_component(e.path.as_str());
    out.append(name.as_str());
    push_char(out, '\n');
    let mut inner = prefix.clone();
    push_padding(&mut inner, last);
    write_children(&e.children, &inner, out);
}

fn write_children(cs: &Vec<FolderEntry>, prefix: &String, out: &mut String)
    requires
        forall|i: int|
            0 <= i < cs@.len() ==> #[trigger] cs@[i].path@.len() > 0 && well_formed(cs@[i]),
    ensures
        final(out)@ == old(out)@ + children_text(cs@, prefix@),
    decreases cs,
{
    let ghost start = out@;
    let n = cs.len();
    let mut i: usize = 0;
    assert(cs@.skip(0) =~= cs@);
    while i < n
        invariant
            i <= n == cs@.len(),
            forall|j: int|
                0 <= j < cs@.len() ==> #[trigger] cs@[j].path@.len() > 0 && well_formed(cs@[j]),
            out@ + children_text(cs@.skip(i as int), prefix@) == start + children_text(cs@, prefix@),
        decreases n - i,
    {
        let ghost rest = cs@.skip(i as int);
        assert(rest[0] == cs@[i as int]);
        assert(rest.skip(1) =~= cs@.skip(i + 1));
        let ghost before = out@;
        write_entry(&cs[i], prefix, i + 1 == n, out);
        assert(out@ + children_text(cs@.skip(i + 1), prefix@) =~= before + children_text(rest, prefix@));
        i += 1;
    }
    assert(cs@.skip(n as int) =~= seq![]);
    assert(out@ =~= start + children_text(cs@, prefix@));
}

/// Writes the tree diagram of `tree` to `out`: the root path once,
/// unindented, then each entry below it on its own line, indented by the
/// continuation marks of its ancestors and led by its connector, with its
/// last path component as its name.
pub fn write_folder_tree(tree: &FolderEntry, out: &mut String)
    requires
        well_formed(*tree),
    ensures
        final(out)@ == old(out)@ + tree_text(*tree),
{
    out.append(tree.path.as_str());
    push_char(out, '\n');
    let top = String::new();
    write_children(&tree.children, &top, out);
}

} // verus!
