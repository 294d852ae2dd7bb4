//! The laws of selection: what toggling keeps, what selecting the root gives,
//! and what toggling twice gives back.

use crate::selection_laws::{
    lemma_cascade_deselect, lemma_cascade_select, lemma_contains_path,
    lemma_files_with_flag_contains, lemma_files_with_flag_distinct, lemma_position_of,
    lemma_remove_path,
};
use crate::tree_laws::{
    lemma_flip_file_absent_in, lemma_flip_file_entries, lemma_folder_with_selection_entries,
    lemma_toggle_folder_absent_in, lemma_toggle_folder_entries, lemma_toggle_folder_twice,
};
use crate::tree_model::{
    cascade, distinct_paths, file_toggle_is_consistent, files_of, files_with_flag,
    folder_toggle_is_consistent, has_selected_path, set_flags, Entry, FileSystemView, FileView,
    NodeView,
};
use vstd::prelude::*;

verus! {

/// Leaves without repeated paths: any two of them have different paths.
proof fn lemma_distinct_leaves(leaves: Seq<Entry>)
    requires
        distinct_paths(files_of(leaves)),
    ensures
        forall|a: int, b: int|
            #![trigger leaves[a], leaves[b]]
            0 <= a < leaves.len() && 0 <= b < leaves.len() && a != b ==> leaves[a].0.path
                != leaves[b].0.path,
{
    assert forall|a: int, b: int|
        #![trigger leaves[a], leaves[b]]
        0 <= a < leaves.len() && 0 <= b < leaves.len() && a != b implies leaves[a].0.path
            != leaves[b].0.path by {
        assert(files_of(leaves)[a] == leaves[a].0);
        assert(files_of(leaves)[b] == leaves[b].0);
    }
}

/// A part of a run of leaves without repeated paths has no repeated path.
proof fn lemma_distinct_part(before: Seq<Entry>, part: Seq<Entry>, after: Seq<Entry>)
    requires
        distinct_paths(files_of(before + part + after)),
    ensures
        distinct_paths(files_of(part)),
{
    let whole = before + part + after;
    assert forall|i: int, j: int| 0 <= i < j < files_of(part).len() implies files_of(part)[i].path
        != files_of(part)[j].path by {
        assert(files_of(whole)[before.len() + i] == files_of(part)[i]);
        assert(files_of(whole)[before.len() + j] == files_of(part)[j]);
    }
}

/// Toggling a file keeps a well-formed state well-formed, and finds the list
/// consistent with the tree.
pub proof fn lemma_toggle_file_keeps_wf(state: FileSystemView, path: Seq<char>)
    requires
        state.wf(),
    ensures
        state.toggle_file(path).wf(),
        file_toggle_is_consistent(state.selection, state.tree.find_file(path)),
        state.tree.find_file(path) is None ==> state.toggle_file(path) == state,
{
    let next = state.toggle_file(path);
    let list = state.selection;
    let leaves = state.tree.entries();
    match state.tree.find_file(path) {
        None => {
            match state.tree {
                NodeView::Folder(folder, selected) => {
                    lemma_flip_file_absent_in(folder.children, path);
                },
                NodeView::File(_, _) => {},
            }
            assert(next.tree == state.tree);
        },
        Some(entry) => {
            let k = lemma_flip_file_entries(state.tree, path);
            let file = entry.0;
            let changed = next.tree.entries();
            assert(changed == leaves.update(k, (file, !entry.1)));
            assert(files_of(changed) =~= files_of(leaves));
            lemma_distinct_leaves(leaves);
            if entry.1 {
                assert(leaves[k] == (file, true));
                assert(leaves.contains((file, true)));
                assert(list.contains(file));
                lemma_contains_path(list, file.path);
                let w = choose|w: int| 0 <= w < list.len() && list[w] == file;
                assert(list[w].path == file.path);
                lemma_remove_path(list, file.path);
                assert forall|other: FileView| #[trigger]
                    next.selection.contains(other) <==> changed.contains((other, true)) by {
                    if list.contains(other) && other.path != file.path {
                        let a = choose|a: int|
                            0 <= a < leaves.len() && leaves[a] == (other, true);
                        assert(changed[a] == (other, true));
                    }
                    if changed.contains((other, true)) {
                        let a = choose|a: int|
                            0 <= a < changed.len() && changed[a] == (other, true);
                        assert(a != k);
                        assert(leaves[a] == (other, true));
                        assert(leaves.contains((other, true)));
                    }
                }
            } else {
                assert forall|j: int| 0 <= j < list.len() implies (#[trigger] list[j]).path
                    != file.path by {
                    assert(list.contains(list[j]));
                    let a = choose|a: int|
                        0 <= a < leaves.len() && leaves[a] == (list[j], true);
                    assert(a != k);
                }
                assert(next.selection == list.push(file));
                assert forall|other: FileView| #[trigger]
                    next.selection.contains(other) <==> changed.contains((other, true)) by {
                    if next.selection.contains(other) {
                        let i = choose|i: int|
                            0 <= i < next.selection.len() && next.selection[i] == other;
                        if i < list.len() {
                            assert(list[i] == other);
                            assert(list.contains(other));
                            let a = choose|a: int|
                                0 <= a < leaves.len() && leaves[a] == (other, true);
                            assert(a != k);
                            assert(changed[a] == (other, true));
                        } else {
                            assert(changed[k] == (other, true));
                        }
                    }
                    if changed.contains((other, true)) {
                        let a = choose|a: int|
                            0 <= a < changed.len() && changed[a] == (other, true);
                        if a == k {
                            assert(next.selection[list.len() as int] == other);
                        } else {
                            assert(leaves[a] == (other, true));
                            assert(leaves.contains((other, true)));
                            assert(list.contains(other));
                            let i = choose|i: int| 0 <= i < list.len() && list[i] == other;
                            assert(next.selection[i] == other);
                        }
                    }
                }
            }
        },
    }
}

/// Toggling a folder keeps a well-formed state well-formed, and finds the
/// list consistent with the tree.
pub proof fn lemma_toggle_folder_keeps_wf(state: FileSystemView, path: Seq<char>)
    requires
        state.wf(),
    ensures
        state.toggle_folder(path).wf(),
        folder_toggle_is_consistent(state.selection, state.tree.find_folder(path)),
        state.tree.find_folder(path) is None ==> state.toggle_folder(path) == state,
{
    let next = state.toggle_folder(path);
    let list = state.selection;
    let leaves = state.tree.entries();
    match state.tree.find_folder(path) {
        None => {
            match state.tree {
                NodeView::Folder(folder, selected) => {
                    lemma_toggle_folder_absent_in(folder.children, path);
                },
                NodeView::File(_, _) => {},
            }
            assert(next.tree == state.tree);
        },
        Some((folder, selected)) => {
            let around = lemma_toggle_folder_entries(state.tree, path);
            let before = around.0;
            let after = around.1;
            let inside = folder.entries();
            let value = !selected;
            let changed = next.tree.entries();
            let start = before.len() as int;
            let end = start + inside.len();
            assert(leaves == before + inside + after);
            assert(changed == before + set_flags(inside, value) + after);
            assert(changed.len() == leaves.len());
            assert(files_of(changed) =~= files_of(leaves));
            assert forall|a: int| 0 <= a < leaves.len() implies {
                &&& (#[trigger] changed[a]).0 == leaves[a].0
                &&& start <= a < end ==> changed[a].1 == value && leaves[a] == inside[a - start]
                &&& !(start <= a < end) ==> changed[a] == leaves[a]
            } by {}
            lemma_distinct_leaves(leaves);
            lemma_distinct_part(before, inside, after);
            if value {
                lemma_cascade_select(list, inside);
                let added = files_with_flag(inside, false);
                lemma_files_with_flag_contains(inside, false);
                lemma_files_with_flag_distinct(inside, false);
                assert(next.selection == list + added);
                let grown = next.selection;
                assert forall|i: int, j: int| 0 <= i < j < grown.len() implies grown[i].path
                    != grown[j].path by {
                    if j >= list.len() && i < list.len() {
                        let new = added[j - list.len()];
                        assert(added.contains(new));
                        let m = choose|m: int| 0 <= m < inside.len() && inside[m] == (new, false);
                        assert(leaves[start + m] == (new, false));
                        assert(list.contains(list[i]));
                        let a = choose|a: int|
                            0 <= a < leaves.len() && leaves[a] == (list[i], true);
                        assert(a != start + m);
                    } else if j >= list.len() {
                        assert(grown[i] == added[i - list.len()]);
                        assert(grown[j] == added[j - list.len()]);
                    }
                }
                assert forall|file: FileView| #[trigger]
                    next.selection.contains(file) <==> changed.contains((file, true)) by {
                    if next.selection.contains(file) {
                        let i = choose|i: int|
                            0 <= i < next.selection.len() && next.selection[i] == file;
                        if i < list.len() {
                            assert(list[i] == file);
                            assert(list.contains(file));
                            let a = choose|a: int|
                                0 <= a < leaves.len() && leaves[a] == (file, true);
                            assert(changed[a] == (file, true));
                        } else {
                            assert(added[i - list.len()] == file);
                            assert(added.contains(file));
                            let m = choose|m: int|
                                0 <= m < inside.len() && inside[m] == (file, false);
                            assert(changed[start + m] == (file, true));
                        }
                    }
                    if changed.contains((file, true)) {
                        let a = choose|a: int|
                            0 <= a < changed.len() && changed[a] == (file, true);
                        if start <= a < end && !leaves[a].1 {
                            assert(inside[a - start] == (file, false));
                            assert(inside.contains((file, false)));
                            assert(added.contains(file));
                            let i = choose|i: int| 0 <= i < added.len() && added[i] == file;
                            assert(next.selection[list.len() + i] == file);
                        } else {
                            assert(leaves[a] == (file, true));
                            assert(leaves.contains((file, true)));
                            assert(list.contains(file));
                            let i = choose|i: int| 0 <= i < list.len() && list[i] == file;
                            assert(next.selection[i] == file);
                        }
                    }
                }
            } else {
                assert forall|m: int|
                    0 <= m < inside.len() && (#[trigger] inside[m]).1 implies list.contains(
                    inside[m].0,
                ) by {
                    assert(leaves[start + m] == inside[m]);
                    assert(leaves.contains((inside[m].0, true)));
                }
                lemma_cascade_deselect(list, inside);
                assert(next.selection == cascade(list, inside, false));
                assert forall|file: FileView| #[trigger]
                    next.selection.contains(file) <==> changed.contains((file, true)) by {
                    if list.contains(file) && !has_selected_path(inside, file.path) {
                        let a = choose|a: int|
                            0 <= a < leaves.len() && leaves[a] == (file, true);
                        if start <= a < end {
                            assert(inside[a - start].1 && inside[a - start].0.path == file.path);
                        }
                        assert(changed[a] == (file, true));
                    }
                    if changed.contains((file, true)) {
                        let a = choose|a: int|
                            0 <= a < changed.len() && changed[a] == (file, true);
                        assert(!(start <= a < end));
                        assert(leaves[a] == (file, true));
                        assert(leaves.contains((file, true)));
                        if has_selected_path(inside, file.path) {
                            let m = choose|m: int|
                                0 <= m < inside.len() && (#[trigger] inside[m]).1
                                    && inside[m].0.path == file.path;
                            assert(leaves[start + m] == inside[m]);
                            assert(start + m != a);
                        }
                    }
                }
            }
        },
    }
}

/// Where none of the leaves is selected, picking the unselected picks all.
proof fn lemma_all_unselected(entries: Seq<Entry>)
    requires
        entries == set_flags(entries, false),
    ensures
        files_with_flag(entries, false) == files_of(entries),
    decreases entries.len(),
{
    if entries.len() == 0 {
        assert(files_with_flag(entries, false) =~= files_of(entries));
    } else {
        let shorter = entries.drop_last();
        assert(shorter =~= set_flags(shorter, false));
        lemma_all_unselected(shorter);
        assert(entries.last() == set_flags(entries, false)[entries.len() - 1]);
        assert(files_with_flag(entries, false) =~= files_of(entries));
    }
}

/// Deselecting, one after the other, files that were appended to a list
/// which held none of their paths gives the list back.
proof fn lemma_deselect_what_was_appended(list: Seq<FileView>, entries: Seq<Entry>, count: int)
    requires
        0 <= count <= entries.len(),
        distinct_paths(files_of(entries)),
        entries == set_flags(entries, true),
        forall|j: int, i: int|
            0 <= j < list.len() && 0 <= i < entries.len() ==> (#[trigger] list[j]).path != (
            #[trigger] entries[i]).0.path,
    ensures
        cascade(list + files_of(entries), entries.take(count), false) == list + files_of(
            entries,
        ).skip(count),
    decreases count,
{
    let files = files_of(entries);
    if count == 0 {
        assert(entries.take(0) =~= Seq::<Entry>::empty());
        assert(list + files.skip(0) =~= list + files);
    } else {
        lemma_deselect_what_was_appended(list, entries, count - 1);
        let done = entries.take(count);
        assert(done.drop_last() =~= entries.take(count - 1));
        let last = entries[count - 1];
        assert(done.last() == last);
        assert(last == set_flags(entries, true)[count - 1]);
        let before = list + files.skip(count - 1);
        let at = list.len() as int;
        assert(before[at] == files[count - 1]);
        assert forall|j: int| 0 <= j < at implies (#[trigger] before[j]).path != last.0.path by {
            assert(before[j] == list[j]);
        }
        lemma_position_of(before, last.0.path, at);
        assert(before.remove(at) =~= list + files.skip(count));
    }
}

/// Selecting the root folder of a tree leaves as selected files exactly the
/// files of the whole tree, each once, and sets every flag of the tree.
pub proof fn law_selecting_root_selects_every_file(state: FileSystemView)
    requires
        state.wf(),
        state.tree matches NodeView::Folder(_, selected) && !selected,
    ensures
        ({
            let after = state.toggle_folder(state.tree.path());
            &&& after.wf()
            &&& after.tree == state.tree.with_selection(true)
            &&& after.selection.to_set() == files_of(state.tree.entries()).to_set()
            &&& after.selection.no_duplicates()
        }),
{
    let path = state.tree.path();
    let after = state.toggle_folder(path);
    let leaves = state.tree.entries();
    let list = state.selection;
    lemma_toggle_folder_keeps_wf(state, path);
    lemma_cascade_select(list, leaves);
    lemma_files_with_flag_contains(leaves, false);
    let added = files_with_flag(leaves, false);
    assert(after.selection == list + added);
    assert forall|file: FileView|
        after.selection.to_set().contains(file) <==> files_of(leaves).to_set().contains(
            file,
        ) by {
        if after.selection.contains(file) {
            let i = choose|i: int| 0 <= i < after.selection.len() && after.selection[i] == file;
            if i < list.len() {
                assert(list[i] == file);
                assert(list.contains(file));
                let a = choose|a: int| 0 <= a < leaves.len() && leaves[a] == (file, true);
                assert(files_of(leaves)[a] == file);
            } else {
                assert(added[i - list.len()] == file);
                assert(added.contains(file));
                let a = choose|a: int| 0 <= a < leaves.len() && leaves[a] == (file, false);
                assert(files_of(leaves)[a] == file);
            }
        }
        if files_of(leaves).contains(file) {
            let a = choose|a: int| 0 <= a < files_of(leaves).len() && files_of(leaves)[a] == file;
            if leaves[a].1 {
                assert(leaves[a] == (file, true));
                assert(leaves.contains((file, true)));
                assert(list.contains(file));
                let i = choose|i: int| 0 <= i < list.len() && list[i] == file;
                assert(after.selection[i] == file);
            } else {
                assert(leaves[a] == (file, false));
                assert(leaves.contains((file, false)));
                assert(added.contains(file));
                let i = choose|i: int| 0 <= i < added.len() && added[i] == file;
                assert(after.selection[list.len() + i] == file);
            }
        }
    }
    assert(after.selection.to_set() =~= files_of(leaves).to_set());
}

/// Toggling a folder twice, where every file and folder in it had the
/// folder's flag, gives back the tree with every flag as it was and the same
/// set of selected files; where the folder was not selected, the list comes
/// back in its old order too. A path that names no folder changes nothing.
pub proof fn law_toggling_folder_twice_restores(state: FileSystemView, path: Seq<char>)
    requires
        state.wf(),
        state.tree.find_folder(path) matches Some((folder, selected)) ==> folder.with_selection(
            selected,
        ) == folder,
    ensures
        ({
            let twice = state.toggle_folder(path).toggle_folder(path);
            &&& twice.wf()
            &&& twice.tree == state.tree
            &&& twice.selection.to_set() == state.selection.to_set()
            &&& (state.tree.find_folder(path) matches Some((_, selected)) ==> !selected)
                ==> twice.selection == state.selection
        }),
{
    if state.tree.find_folder(path) is None {
        lemma_toggle_folder_keeps_wf(state, path);
    } else {
        let once = state.toggle_folder(path);
        let twice = once.toggle_folder(path);
        let found = state.tree.find_folder(path)->0;
        let folder = found.0;
        let list = state.selection;
        let leaves = state.tree.entries();
        lemma_toggle_folder_keeps_wf(state, path);
        lemma_toggle_folder_keeps_wf(once, path);
        lemma_toggle_folder_twice(state.tree, path);
        assert(twice.tree == state.tree);
        assert forall|file: FileView|
            twice.selection.to_set().contains(file) <==> state.selection.to_set().contains(
                file,
            ) by {
            assert(twice.selection.contains(file) <==> leaves.contains((file, true)));
            assert(list.contains(file) <==> leaves.contains((file, true)));
        }
        assert(twice.selection.to_set() =~= state.selection.to_set());
        if !found.1 {
            let inside = folder.entries();
            let around = lemma_toggle_folder_entries(state.tree, path);
            let start = around.0.len() as int;
            lemma_folder_with_selection_entries(folder, false);
            lemma_folder_with_selection_entries(folder, true);
            lemma_all_unselected(inside);
            lemma_cascade_select(list, inside);
            let selected = set_flags(inside, true);
            assert(files_of(selected) =~= files_of(inside));
            assert(selected =~= set_flags(selected, true));
            assert(once.selection == list + files_of(selected));
            assert(twice.selection == cascade(once.selection, selected, false));
            lemma_distinct_leaves(leaves);
            lemma_distinct_part(around.0, inside, around.1);
            assert forall|j: int, i: int|
                #![trigger list[j], selected[i]]
                0 <= j < list.len() && 0 <= i < selected.len() implies list[j].path
                    != selected[i].0.path by {
                assert(list.contains(list[j]));
                let a = choose|a: int| 0 <= a < leaves.len() && leaves[a] == (list[j], true);
                assert(leaves[start + i] == inside[i]);
                assert(inside[i] == set_flags(inside, false)[i]);
                assert(a != start + i);
            }
            lemma_deselect_what_was_appended(list, selected, selected.len() as int);
            assert(selected.take(selected.len() as int) =~= selected);
            assert(list + files_of(selected).skip(selected.len() as int) =~= list);
        }
    }
}

} // verus!
