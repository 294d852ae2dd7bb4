//! What holds of the list of selected files when leaves are driven to a flag.

use crate::tree_model::{
    apply_entry, cascade, cascade_is_consistent, contains_path, distinct_paths,
    entry_is_consistent, files_of, files_with_flag, has_selected_path, position_of, remove_path,
    total_size, Entry, FileView,
};
use vstd::prelude::*;

verus! {

/// A cascade over two runs of leaves is the cascade over the first followed
/// by the cascade over the second.
pub proof fn lemma_cascade_concat(
    list: Seq<FileView>,
    first: Seq<Entry>,
    second: Seq<Entry>,
    value: bool,
)
    ensures
        cascade(list, first + second, value) == cascade(cascade(list, first, value), second, value),
        cascade_is_consistent(list, first + second, value) <==> cascade_is_consistent(
            list,
            first,
            value,
        ) && cascade_is_consistent(cascade(list, first, value), second, value),
    decreases second.len(),
{
    if second.len() == 0 {
        assert(first + second =~= first);
    } else {
        assert((first + second).drop_last() =~= first + second.drop_last());
        assert((first + second).last() == second.last());
        lemma_cascade_concat(list, first, second.drop_last(), value);
    }
}

/// A cascade over a single leaf is one step.
pub proof fn lemma_cascade_single(list: Seq<FileView>, entry: Entry, value: bool)
    ensures
        cascade(list, seq![entry], value) == apply_entry(list, entry, value),
        cascade_is_consistent(list, seq![entry], value) == entry_is_consistent(list, entry, value),
{
    let single = seq![entry];
    assert(single.drop_last() =~= Seq::<Entry>::empty());
    assert(single.last() == entry);
    assert(cascade(list, single.drop_last(), value) == list);
    assert(cascade_is_consistent(list, single.drop_last(), value));
}

/// `position_of` is the first index at which the path occurs.
pub proof fn lemma_position_of(list: Seq<FileView>, path: Seq<char>, index: int)
    requires
        0 <= index <= list.len(),
        forall|j: int| 0 <= j < index ==> (#[trigger] list[j]).path != path,
        index < list.len() ==> list[index].path == path,
    ensures
        position_of(list, path) == index,
    decreases index,
{
    if index > 0 {
        let rest = list.drop_first();
        assert forall|j: int| 0 <= j < index - 1 implies (#[trigger] rest[j]).path != path by {
            assert(rest[j] == list[j + 1]);
        }
        if index < list.len() {
            assert(rest[index - 1] == list[index]);
        }
        assert(list.first() == list[0]);
        lemma_position_of(rest, path, index - 1);
    }
}

/// `position_of` lies within the list or just behind it, names a file with
/// the path where it lies within, and passes over no file with the path.
pub proof fn lemma_position_of_is_first(list: Seq<FileView>, path: Seq<char>)
    ensures
        0 <= position_of(list, path) <= list.len(),
        position_of(list, path) < list.len() ==> list[position_of(list, path)].path == path,
        forall|j: int| 0 <= j < position_of(list, path) ==> (#[trigger] list[j]).path != path,
    decreases list.len(),
{
    if list.len() > 0 && list.first().path != path {
        let rest = list.drop_first();
        lemma_position_of_is_first(rest, path);
        let k = position_of(rest, path);
        assert forall|j: int| 0 <= j < k + 1 implies (#[trigger] list[j]).path != path by {
            if j > 0 {
                assert(list[j] == rest[j - 1]);
            }
        }
        if k < rest.len() {
            assert(list[k + 1] == rest[k]);
        }
    }
}

/// A list holds a path exactly where one of its files has it.
pub proof fn lemma_contains_path(list: Seq<FileView>, path: Seq<char>)
    ensures
        contains_path(list, path) <==> exists|i: int|
            0 <= i < list.len() && (#[trigger] list[i]).path == path,
{
    lemma_position_of_is_first(list, path);
    if contains_path(list, path) {
        assert(list[position_of(list, path)].path == path);
    }
}

/// Taking a path out of a list without repeated paths leaves exactly the
/// files with another path, and no repeated path.
pub proof fn lemma_remove_path(list: Seq<FileView>, path: Seq<char>)
    requires
        distinct_paths(list),
    ensures
        distinct_paths(remove_path(list, path)),
        forall|file: FileView| #[trigger]
            remove_path(list, path).contains(file) <==> list.contains(file) && file.path != path,
{
    lemma_position_of_is_first(list, path);
    let k = position_of(list, path);
    let after = remove_path(list, path);
    if k < list.len() {
        assert forall|i: int, j: int| 0 <= i < j < after.len() implies after[i].path
            != after[j].path by {
            let a = if i < k { i } else { i + 1 };
            let b = if j < k { j } else { j + 1 };
            assert(after[i] == list[a] && after[j] == list[b]);
        }
        assert forall|file: FileView| #[trigger]
            after.contains(file) <==> list.contains(file) && file.path != path by {
            if after.contains(file) {
                let i = choose|i: int| 0 <= i < after.len() && after[i] == file;
                let a = if i < k { i } else { i + 1 };
                assert(list[a] == file);
                if a < k {
                } else {
                    assert(list[k].path != list[a].path);
                }
            }
            if list.contains(file) && file.path != path {
                let a = choose|a: int| 0 <= a < list.len() && list[a] == file;
                let i = if a < k { a } else { a - 1 };
                assert(after[i] == file);
            }
        }
    } else {
        assert forall|file: FileView| #[trigger]
            after.contains(file) <==> list.contains(file) && file.path != path by {
            if list.contains(file) {
                let a = choose|a: int| 0 <= a < list.len() && list[a] == file;
                assert(list[a].path != path);
            }
        }
    }
}

/// The files picked by flag are those that occur with that flag.
pub proof fn lemma_files_with_flag_contains(entries: Seq<Entry>, flag: bool)
    ensures
        forall|file: FileView| #[trigger]
            files_with_flag(entries, flag).contains(file) <==> entries.contains((file, flag)),
    decreases entries.len(),
{
    let picked = files_with_flag(entries, flag);
    if entries.len() == 0 {
        assert forall|file: FileView| #[trigger]
            picked.contains(file) <==> entries.contains((file, flag)) by {}
    } else {
        let shorter = entries.drop_last();
        let last = entries.last();
        let before = files_with_flag(shorter, flag);
        lemma_files_with_flag_contains(shorter, flag);
        assert forall|file: FileView| #[trigger]
            picked.contains(file) <==> entries.contains((file, flag)) by {
            if picked.contains(file) {
                let i = choose|i: int| 0 <= i < picked.len() && picked[i] == file;
                if i < before.len() {
                    assert(before[i] == file);
                    assert(before.contains(file));
                    let a = choose|a: int| 0 <= a < shorter.len() && shorter[a] == (file, flag);
                    assert(entries[a] == (file, flag));
                } else {
                    assert(entries[entries.len() - 1] == (file, flag));
                }
            }
            if entries.contains((file, flag)) {
                let a = choose|a: int| 0 <= a < entries.len() && entries[a] == (file, flag);
                if a < shorter.len() {
                    assert(shorter[a] == (file, flag));
                    assert(before.contains(file));
                    let i = choose|i: int| 0 <= i < before.len() && before[i] == file;
                    assert(picked[i] == file);
                } else {
                    assert(picked[picked.len() - 1] == file);
                }
            }
        }
    }
}

/// Picking by flag from leaves without repeated paths gives no repeated path.
pub proof fn lemma_files_with_flag_distinct(entries: Seq<Entry>, flag: bool)
    requires
        distinct_paths(files_of(entries)),
    ensures
        distinct_paths(files_with_flag(entries, flag)),
    decreases entries.len(),
{
    if entries.len() > 0 {
        let shorter = entries.drop_last();
        let last = entries.last();
        let before = files_with_flag(shorter, flag);
        assert forall|i: int, j: int| 0 <= i < j < files_of(shorter).len() implies files_of(
            shorter,
        )[i].path != files_of(shorter)[j].path by {
            assert(files_of(shorter)[i] == files_of(entries)[i]);
            assert(files_of(shorter)[j] == files_of(entries)[j]);
        }
        lemma_files_with_flag_distinct(shorter, flag);
        lemma_files_with_flag_contains(shorter, flag);
        if last.1 == flag {
            let picked = before.push(last.0);
            assert forall|i: int, j: int| 0 <= i < j < picked.len() implies picked[i].path
                != picked[j].path by {
                if j == before.len() {
                    assert(before.contains(before[i]));
                    let a = choose|a: int|
                        0 <= a < shorter.len() && shorter[a] == (before[i], flag);
                    assert(files_of(entries)[a] == before[i]);
                    assert(files_of(entries)[entries.len() - 1] == last.0);
                }
            }
        }
    }
}

/// Picking by flag from two runs of leaves, one after the other.
pub proof fn lemma_files_with_flag_concat(first: Seq<Entry>, second: Seq<Entry>, flag: bool)
    ensures
        files_with_flag(first + second, flag) == files_with_flag(first, flag) + files_with_flag(
            second,
            flag,
        ),
    decreases second.len(),
{
    if second.len() == 0 {
        assert(first + second =~= first);
        assert(files_with_flag(first, flag) + files_with_flag(second, flag) =~= files_with_flag(
            first,
            flag,
        ));
    } else {
        assert((first + second).drop_last() =~= first + second.drop_last());
        assert((first + second).last() == second.last());
        lemma_files_with_flag_concat(first, second.drop_last(), flag);
        assert(files_with_flag(first + second, flag) =~= files_with_flag(first, flag)
            + files_with_flag(second, flag));
    }
}

/// The lengths of two runs of leaves add up.
pub proof fn lemma_total_size_concat(first: Seq<Entry>, second: Seq<Entry>)
    ensures
        total_size(first + second) == total_size(first) + total_size(second),
    decreases second.len(),
{
    if second.len() == 0 {
        assert(first + second =~= first);
    } else {
        assert((first + second).drop_last() =~= first + second.drop_last());
        assert((first + second).last() == second.last());
        lemma_total_size_concat(first, second.drop_last());
    }
}

/// Selecting appends the files that were not selected, in walk order, and is
/// always consistent.
pub proof fn lemma_cascade_select(list: Seq<FileView>, entries: Seq<Entry>)
    ensures
        cascade(list, entries, true) == list + files_with_flag(entries, false),
        cascade_is_consistent(list, entries, true),
    decreases entries.len(),
{
    if entries.len() == 0 {
        assert(list + files_with_flag(entries, false) =~= list);
    } else {
        lemma_cascade_select(list, entries.drop_last());
        assert(cascade(list, entries, true) =~= list + files_with_flag(entries, false));
    }
}

/// Deselecting, from a list without repeated paths that holds every selected
/// leaf, is consistent and leaves exactly the files whose path no selected
/// leaf has.
pub proof fn lemma_cascade_deselect(list: Seq<FileView>, entries: Seq<Entry>)
    requires
        distinct_paths(list),
        distinct_paths(files_of(entries)),
        forall|i: int|
            0 <= i < entries.len() && (#[trigger] entries[i]).1 ==> list.contains(entries[i].0),
    ensures
        distinct_paths(cascade(list, entries, false)),
        cascade_is_consistent(list, entries, false),
        forall|file: FileView| #[trigger]
            cascade(list, entries, false).contains(file) <==> list.contains(file)
                && !has_selected_path(entries, file.path),
    decreases entries.len(),
{
    let after = cascade(list, entries, false);
    if entries.len() == 0 {
        assert forall|file: FileView| #[trigger]
            after.contains(file) <==> list.contains(file) && !has_selected_path(
                entries,
                file.path,
            ) by {}
    } else {
        let shorter = entries.drop_last();
        let last = entries.last();
        let before = cascade(list, shorter, false);
        assert forall|i: int, j: int| 0 <= i < j < files_of(shorter).len() implies files_of(
            shorter,
        )[i].path != files_of(shorter)[j].path by {
            assert(files_of(shorter)[i] == files_of(entries)[i]);
            assert(files_of(shorter)[j] == files_of(entries)[j]);
        }
        assert forall|i: int|
            0 <= i < shorter.len() && (#[trigger] shorter[i]).1 implies list.contains(
            shorter[i].0,
        ) by {
            assert(shorter[i] == entries[i]);
        }
        lemma_cascade_deselect(list, shorter);
        assert forall|path: Seq<char>| #[trigger]
            has_selected_path(entries, path) <==> has_selected_path(shorter, path) || (last.1
                && last.0.path == path) by {
            if has_selected_path(entries, path) {
                let i = choose|i: int|
                    0 <= i < entries.len() && (#[trigger] entries[i]).1 && entries[i].0.path
                        == path;
                if i < shorter.len() {
                    assert(shorter[i] == entries[i]);
                }
            }
            if has_selected_path(shorter, path) {
                let i = choose|i: int|
                    0 <= i < shorter.len() && (#[trigger] shorter[i]).1 && shorter[i].0.path
                        == path;
                assert(entries[i] == shorter[i]);
            }
            if last.1 && last.0.path == path {
                assert(entries[entries.len() - 1] == last);
            }
        }
        if last.1 {
            assert(entries[entries.len() - 1] == last);
            assert(list.contains(last.0));
            if has_selected_path(shorter, last.0.path) {
                let i = choose|i: int|
                    0 <= i < shorter.len() && (#[trigger] shorter[i]).1 && shorter[i].0.path
                        == last.0.path;
                assert(files_of(entries)[i] == shorter[i].0);
                assert(files_of(entries)[entries.len() - 1] == last.0);
            }
            assert(before.contains(last.0));
            lemma_contains_path(before, last.0.path);
            let w = choose|w: int| 0 <= w < before.len() && before[w] == last.0;
            assert(before[w].path == last.0.path);
            assert(entry_is_consistent(before, last, false));
            lemma_remove_path(before, last.0.path);
            assert(after == remove_path(before, last.0.path));
            assert forall|file: FileView| #[trigger]
                after.contains(file) <==> list.contains(file) && !has_selected_path(
                    entries,
                    file.path,
                ) by {
                assert(has_selected_path(entries, file.path) <==> has_selected_path(
                    shorter,
                    file.path,
                ) || (last.1 && last.0.path == file.path));
                assert(before.contains(file) <==> list.contains(file) && !has_selected_path(
                    shorter,
                    file.path,
                ));
            }
        } else {
            assert(after == before);
            assert forall|file: FileView| #[trigger]
                after.contains(file) <==> list.contains(file) && !has_selected_path(
                    entries,
                    file.path,
                ) by {
                assert(has_selected_path(entries, file.path) <==> has_selected_path(
                    shorter,
                    file.path,
                ) || (last.1 && last.0.path == file.path));
                assert(before.contains(file) <==> list.contains(file) && !has_selected_path(
                    shorter,
                    file.path,
                ));
            }
        }
    }
}

} // verus!
