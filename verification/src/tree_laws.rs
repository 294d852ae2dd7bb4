//! How the walk order of the file leaves follows the shape of the tree.

use crate::tree_model::{
    entries_of, find_file_in, find_folder_in, flip_file_in, set_flags, toggle_folder_in, Entry,
    FolderView, NodeView,
};
use vstd::prelude::*;

verus! {

/// The siblings, each with every flag in it set to `value`.
pub open spec fn with_selection_in(nodes: Seq<NodeView>, value: bool) -> Seq<NodeView> {
    Seq::new(nodes.len(), |i: int| nodes[i].with_selection(value))
}

/// The leaves of two runs of siblings, one after the other.
pub proof fn lemma_entries_of_concat(first: Seq<NodeView>, second: Seq<NodeView>)
    ensures
        entries_of(first + second) == entries_of(first) + entries_of(second),
    decreases second.len(),
{
    if second.len() == 0 {
        assert(first + second =~= first);
        assert(entries_of(first) + entries_of(second) =~= entries_of(first));
    } else {
        assert((first + second).drop_last() =~= first + second.drop_last());
        assert((first + second).last() == second.last());
        lemma_entries_of_concat(first, second.drop_last());
        assert(entries_of(first + second) =~= entries_of(first) + entries_of(second));
    }
}

/// The leaves of one node taken as a run of siblings.
pub proof fn lemma_entries_of_single(node: NodeView)
    ensures
        entries_of(seq![node]) == node.entries(),
{
    let single = seq![node];
    assert(single.drop_last() =~= Seq::<NodeView>::empty());
    assert(single.last() == node);
    assert(entries_of(single.drop_last()) + node.entries() =~= node.entries());
}

/// The leaves of siblings are those of the first followed by those of the rest.
pub proof fn lemma_entries_of_first(nodes: Seq<NodeView>)
    requires
        nodes.len() > 0,
    ensures
        entries_of(nodes) == nodes.first().entries() + entries_of(nodes.drop_first()),
{
    assert(nodes =~= seq![nodes.first()] + nodes.drop_first());
    lemma_entries_of_concat(seq![nodes.first()], nodes.drop_first());
    lemma_entries_of_single(nodes.first());
}

/// The leaves of siblings are those before the one at `index`, then its own,
/// then those behind it.
pub proof fn lemma_entries_of_split(nodes: Seq<NodeView>, index: int)
    requires
        0 <= index < nodes.len(),
    ensures
        entries_of(nodes) == entries_of(nodes.take(index)) + nodes[index].entries() + entries_of(
            nodes.skip(index + 1),
        ),
{
    let left = nodes.take(index);
    let right = nodes.skip(index + 1);
    assert(nodes =~= left + seq![nodes[index]] + right);
    lemma_entries_of_concat(left + seq![nodes[index]], right);
    lemma_entries_of_concat(left, seq![nodes[index]]);
    lemma_entries_of_single(nodes[index]);
}

/// The leaves of the first `n + 1` siblings are those of the first `n`
/// followed by those of the next one.
pub proof fn lemma_entries_of_next(nodes: Seq<NodeView>, n: int)
    requires
        0 <= n < nodes.len(),
    ensures
        entries_of(nodes.take(n + 1)) == entries_of(nodes.take(n)) + nodes[n].entries(),
{
    assert(nodes.take(n + 1).drop_last() =~= nodes.take(n));
}

/// Flipping a file that is not there changes nothing.
pub proof fn lemma_flip_file_absent_in(nodes: Seq<NodeView>, path: Seq<char>)
    requires
        find_file_in(nodes, path) is None,
    ensures
        flip_file_in(nodes, path) == nodes,
    decreases nodes.len(),
{
    if nodes.len() > 0 {
        lemma_flip_file_absent_in(nodes.drop_first(), path);
        assert(seq![nodes.first()] + nodes.drop_first() =~= nodes);
    }
}

/// Toggling a folder that is not there changes nothing.
pub proof fn lemma_toggle_folder_absent_in(nodes: Seq<NodeView>, path: Seq<char>)
    requires
        find_folder_in(nodes, path) is None,
    ensures
        toggle_folder_in(nodes, path) == nodes,
    decreases nodes.len(),
{
    if nodes.len() > 0 {
        lemma_toggle_folder_absent_in(nodes.drop_first(), path);
        assert(seq![nodes.first()] + nodes.drop_first() =~= nodes);
    }
}

/// Where the first `index` siblings hold no file with the path, the search
/// and the flip are decided by the sibling at `index`.
pub proof fn lemma_file_search_at(nodes: Seq<NodeView>, path: Seq<char>, index: int)
    requires
        0 <= index <= nodes.len(),
        forall|j: int| 0 <= j < index ==> (#[trigger] nodes[j]).find_file(path) is None,
        index < nodes.len() ==> nodes[index].find_file(path) is Some,
    ensures
        index < nodes.len() ==> find_file_in(nodes, path) == nodes[index].find_file(path),
        index < nodes.len() ==> flip_file_in(nodes, path) == nodes.update(
            index,
            nodes[index].flip_file(path),
        ),
        index == nodes.len() ==> find_file_in(nodes, path) is None,
        index == nodes.len() ==> flip_file_in(nodes, path) == nodes,
    decreases index,
{
    if index > 0 {
        let rest = nodes.drop_first();
        assert forall|j: int| 0 <= j < index - 1 implies (#[trigger] rest[j]).find_file(
            path,
        ) is None by {
            assert(rest[j] == nodes[j + 1]);
        }
        if index < nodes.len() {
            assert(rest[index - 1] == nodes[index]);
        }
        assert(nodes.first() == nodes[0]);
        lemma_file_search_at(rest, path, index - 1);
        if index < nodes.len() {
            assert(seq![nodes.first()] + rest.update(index - 1, nodes[index].flip_file(path))
                =~= nodes.update(index, nodes[index].flip_file(path)));
        } else {
            assert(seq![nodes.first()] + rest =~= nodes);
        }
    } else if index < nodes.len() {
        assert(seq![nodes.first().flip_file(path)] + nodes.drop_first() =~= nodes.update(
            0,
            nodes[0].flip_file(path),
        ));
    }
}

/// Where the first `index` siblings hold no folder with the path, the search
/// and the toggle are decided by the sibling at `index`.
pub proof fn lemma_folder_search_at(nodes: Seq<NodeView>, path: Seq<char>, index: int)
    requires
        0 <= index <= nodes.len(),
        forall|j: int| 0 <= j < index ==> (#[trigger] nodes[j]).find_folder(path) is None,
        index < nodes.len() ==> nodes[index].find_folder(path) is Some,
    ensures
        index < nodes.len() ==> find_folder_in(nodes, path) == nodes[index].find_folder(path),
        index < nodes.len() ==> toggle_folder_in(nodes, path) == nodes.update(
            index,
            nodes[index].toggle_folder(path),
        ),
        index == nodes.len() ==> find_folder_in(nodes, path) is None,
        index == nodes.len() ==> toggle_folder_in(nodes, path) == nodes,
    decreases index,
{
    if index > 0 {
        let rest = nodes.drop_first();
        assert forall|j: int| 0 <= j < index - 1 implies (#[trigger] rest[j]).find_folder(
            path,
        ) is None by {
            assert(rest[j] == nodes[j + 1]);
        }
        if index < nodes.len() {
            assert(rest[index - 1] == nodes[index]);
        }
        assert(nodes.first() == nodes[0]);
        lemma_folder_search_at(rest, path, index - 1);
        if index < nodes.len() {
            assert(seq![nodes.first()] + rest.update(index - 1, nodes[index].toggle_folder(path))
                =~= nodes.update(index, nodes[index].toggle_folder(path)));
        } else {
            assert(seq![nodes.first()] + rest =~= nodes);
        }
    } else if index < nodes.len() {
        assert(seq![nodes.first().toggle_folder(path)] + nodes.drop_first() =~= nodes.update(
            0,
            nodes[0].toggle_folder(path),
        ));
    }
}

/// Setting every flag of a node sets the flag of each of its leaves and
/// keeps their files and their order.
pub proof fn lemma_with_selection_entries(node: NodeView, value: bool)
    ensures
        node.with_selection(value).entries() == set_flags(node.entries(), value),
    decreases node,
{
    match node {
        NodeView::File(file, selected) => {
            assert(node.with_selection(value).entries() =~= set_flags(node.entries(), value));
        },
        NodeView::Folder(folder, selected) => {
            lemma_with_selection_entries_in(folder.children, value);
            assert(folder.with_selection(value).children =~= with_selection_in(
                folder.children,
                value,
            ));
        },
    }
}

/// The same of a run of siblings.
pub proof fn lemma_with_selection_entries_in(nodes: Seq<NodeView>, value: bool)
    ensures
        entries_of(with_selection_in(nodes, value)) == set_flags(entries_of(nodes), value),
    decreases nodes,
{
    let changed = with_selection_in(nodes, value);
    if nodes.len() == 0 {
        assert(entries_of(changed) =~= set_flags(entries_of(nodes), value));
    } else {
        assert(changed.drop_last() =~= with_selection_in(nodes.drop_last(), value));
        assert(changed.last() == nodes.last().with_selection(value));
        lemma_with_selection_entries_in(nodes.drop_last(), value);
        lemma_with_selection_entries(nodes.last(), value);
        assert(entries_of(changed) =~= set_flags(entries_of(nodes), value));
    }
}

/// Setting every flag of a folder's content sets the flag of each of its leaves.
pub proof fn lemma_folder_with_selection_entries(folder: FolderView, value: bool)
    ensures
        folder.with_selection(value).entries() == set_flags(folder.entries(), value),
{
    lemma_with_selection_entries_in(folder.children, value);
    assert(folder.with_selection(value).children =~= with_selection_in(folder.children, value));
}

/// The file that a search finds is a leaf with the path it was asked for,
/// and flipping it inverts the flag of that leaf and of no other.
pub proof fn lemma_flip_file_entries(node: NodeView, path: Seq<char>) -> (index: int)
    requires
        node.find_file(path) is Some,
    ensures
        0 <= index < node.entries().len(),
        node.entries()[index] == node.find_file(path)->0,
        node.entries()[index].0.path == path,
        node.flip_file(path).entries() == node.entries().update(
            index,
            (node.entries()[index].0, !node.entries()[index].1),
        ),
    decreases node,
{
    match node {
        NodeView::File(file, selected) => {
            assert(node.flip_file(path).entries() =~= node.entries().update(
                0,
                (file, !selected),
            ));
            0
        },
        NodeView::Folder(folder, selected) => lemma_flip_file_entries_in(folder.children, path),
    }
}

/// The same of a run of siblings.
pub proof fn lemma_flip_file_entries_in(nodes: Seq<NodeView>, path: Seq<char>) -> (index: int)
    requires
        find_file_in(nodes, path) is Some,
    ensures
        0 <= index < entries_of(nodes).len(),
        entries_of(nodes)[index] == find_file_in(nodes, path)->0,
        entries_of(nodes)[index].0.path == path,
        entries_of(flip_file_in(nodes, path)) == entries_of(nodes).update(
            index,
            (entries_of(nodes)[index].0, !entries_of(nodes)[index].1),
        ),
    decreases nodes,
{
    let first = nodes.first();
    let rest = nodes.drop_first();
    lemma_entries_of_first(nodes);
    let flipped = flip_file_in(nodes, path);
    lemma_entries_of_first(flipped);
    if first.find_file(path) is Some {
        let k = lemma_flip_file_entries(first, path);
        assert(flipped.first() == first.flip_file(path));
        assert(flipped.drop_first() =~= rest);
        assert(entries_of(flipped) =~= entries_of(nodes).update(
            k,
            (entries_of(nodes)[k].0, !entries_of(nodes)[k].1),
        ));
        k
    } else {
        let k = lemma_flip_file_entries_in(rest, path);
        assert(flipped.first() == first);
        assert(flipped.drop_first() =~= flip_file_in(rest, path));
        let index = first.entries().len() + k;
        assert(entries_of(flipped) =~= entries_of(nodes).update(
            index,
            (entries_of(nodes)[index].0, !entries_of(nodes)[index].1),
        ));
        index
    }
}

/// The leaves of the folder that a search finds stand together in the walk
/// order, and toggling the folder sets their flags and changes nothing around them.
pub proof fn lemma_toggle_folder_entries(node: NodeView, path: Seq<char>) -> (around: (
    Seq<Entry>,
    Seq<Entry>,
))
    requires
        node.find_folder(path) is Some,
    ensures
        node.entries() == around.0 + (node.find_folder(path)->0).0.entries() + around.1,
        node.toggle_folder(path).entries() == around.0 + set_flags(
            (node.find_folder(path)->0).0.entries(),
            !(node.find_folder(path)->0).1,
        ) + around.1,
    decreases node,
{
    match node {
        NodeView::File(file, selected) => (Seq::empty(), Seq::empty()),
        NodeView::Folder(folder, selected) => {
            if folder.path == path {
                lemma_folder_with_selection_entries(folder, !selected);
                let nothing = Seq::<Entry>::empty();
                assert(node.entries() =~= nothing + folder.entries() + nothing);
                assert(node.toggle_folder(path).entries() =~= nothing + set_flags(
                    folder.entries(),
                    !selected,
                ) + nothing);
                (nothing, nothing)
            } else {
                lemma_toggle_folder_entries_in(folder.children, path)
            }
        },
    }
}

/// The same of a run of siblings.
pub proof fn lemma_toggle_folder_entries_in(nodes: Seq<NodeView>, path: Seq<char>) -> (around: (
    Seq<Entry>,
    Seq<Entry>,
))
    requires
        find_folder_in(nodes, path) is Some,
    ensures
        entries_of(nodes) == around.0 + (find_folder_in(nodes, path)->0).0.entries() + around.1,
        entries_of(toggle_folder_in(nodes, path)) == around.0 + set_flags(
            (find_folder_in(nodes, path)->0).0.entries(),
            !(find_folder_in(nodes, path)->0).1,
        ) + around.1,
    decreases nodes,
{
    let first = nodes.first();
    let rest = nodes.drop_first();
    lemma_entries_of_first(nodes);
    let toggled = toggle_folder_in(nodes, path);
    lemma_entries_of_first(toggled);
    let found = find_folder_in(nodes, path)->0;
    if first.find_folder(path) is Some {
        let inner = lemma_toggle_folder_entries(first, path);
        assert(toggled.first() == first.toggle_folder(path));
        assert(toggled.drop_first() =~= rest);
        let after = inner.1 + entries_of(rest);
        assert(entries_of(nodes) =~= inner.0 + found.0.entries() + after);
        assert(entries_of(toggled) =~= inner.0 + set_flags(found.0.entries(), !found.1) + after);
        (inner.0, after)
    } else {
        let inner = lemma_toggle_folder_entries_in(rest, path);
        assert(toggled.first() == first);
        assert(toggled.drop_first() =~= toggle_folder_in(rest, path));
        let before = first.entries() + inner.0;
        assert(entries_of(nodes) =~= before + found.0.entries() + inner.1);
        assert(entries_of(toggled) =~= before + set_flags(found.0.entries(), !found.1) + inner.1);
        (before, inner.1)
    }
}

/// Setting every flag of a node twice leaves what the second setting gives.
pub proof fn lemma_with_selection_twice(node: NodeView, first: bool, second: bool)
    ensures
        node.with_selection(first).with_selection(second) == node.with_selection(second),
    decreases node,
{
    match node {
        NodeView::File(_, _) => {},
        NodeView::Folder(folder, _) => {
            lemma_folder_with_selection_twice(folder, first, second);
        },
    }
}

/// The same of a folder's content.
pub proof fn lemma_folder_with_selection_twice(folder: FolderView, first: bool, second: bool)
    ensures
        folder.with_selection(first).with_selection(second) == folder.with_selection(second),
    decreases folder,
{
    let twice = folder.with_selection(first).with_selection(second);
    let once = folder.with_selection(second);
    assert forall|i: int| 0 <= i < folder.children.len() implies twice.children[i]
        == once.children[i] by {
        lemma_with_selection_twice(folder.children[i], first, second);
    }
    assert(twice.children =~= once.children);
}

/// A folder that was toggled is found again under its path, with its flag
/// inverted and handed down; and where everything in the folder had the
/// folder's flag, toggling it once more gives the tree back.
pub proof fn lemma_toggle_folder_twice(node: NodeView, path: Seq<char>)
    requires
        node.find_folder(path) is Some,
    ensures
        node.toggle_folder(path).find_folder(path) == Some(
            (
                (node.find_folder(path)->0).0.with_selection(!(node.find_folder(path)->0).1),
                !(node.find_folder(path)->0).1,
            ),
        ),
        (node.find_folder(path)->0).0.with_selection((node.find_folder(path)->0).1) == (
        node.find_folder(path)->0).0 ==> node.toggle_folder(path).toggle_folder(path) == node,
    decreases node,
{
    match node {
        NodeView::File(_, _) => {},
        NodeView::Folder(folder, selected) => {
            if folder.path == path {
                lemma_folder_with_selection_twice(folder, !selected, selected);
            } else {
                lemma_toggle_folder_twice_in(folder.children, path);
            }
        },
    }
}

/// The same of a run of siblings.
pub proof fn lemma_toggle_folder_twice_in(nodes: Seq<NodeView>, path: Seq<char>)
    requires
        find_folder_in(nodes, path) is Some,
    ensures
        find_folder_in(toggle_folder_in(nodes, path), path) == Some(
            (
                (find_folder_in(nodes, path)->0).0.with_selection(
                    !(find_folder_in(nodes, path)->0).1,
                ),
                !(find_folder_in(nodes, path)->0).1,
            ),
        ),
        (find_folder_in(nodes, path)->0).0.with_selection((find_folder_in(nodes, path)->0).1) == (
        find_folder_in(nodes, path)->0).0 ==> toggle_folder_in(
            toggle_folder_in(nodes, path),
            path,
        ) == nodes,
    decreases nodes,
{
    let first = nodes.first();
    let rest = nodes.drop_first();
    let toggled = toggle_folder_in(nodes, path);
    let found = find_folder_in(nodes, path)->0;
    if first.find_folder(path) is Some {
        lemma_toggle_folder_twice(first, path);
        assert(toggled.first() == first.toggle_folder(path));
        assert(toggled.drop_first() =~= rest);
        if found.0.with_selection(found.1) == found.0 {
            assert(toggle_folder_in(toggled, path) =~= nodes);
        }
    } else {
        lemma_toggle_folder_twice_in(rest, path);
        assert(toggled.first() == first);
        assert(toggled.drop_first() =~= toggle_folder_in(rest, path));
        if found.0.with_selection(found.1) == found.0 {
            assert(toggle_folder_in(toggled, path) =~= nodes);
        }
    }
}

} // verus!
