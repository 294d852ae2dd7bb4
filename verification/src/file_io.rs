//! The scanned directory tree and the list of selected files.

use crate::file_system_laws::{lemma_toggle_file_keeps_wf, lemma_toggle_folder_keeps_wf};
use crate::path_name::{base_name, file_name};
use crate::selection_laws::{
    lemma_cascade_concat, lemma_cascade_single, lemma_files_with_flag_concat,
    lemma_files_with_flag_contains, lemma_files_with_flag_distinct, lemma_position_of,
    lemma_total_size_concat,
};
use crate::tree_laws::{
    lemma_entries_of_next, lemma_entries_of_split, lemma_file_search_at,
    lemma_flip_file_absent_in, lemma_folder_search_at, lemma_toggle_folder_absent_in,
};
use crate::tree_model::{
    cascade, cascade_is_consistent, contains_path, distinct_paths, entries_of,
    file_toggle_is_consistent, files_of, files_with_flag, folder_toggle_is_consistent,
    list_after_file_toggle, list_after_folder_toggle, position_of, total_size, FileSystemView,
    FileView, FolderView, NodeView,
};
use vstd::prelude::*;

verus! {

/// A file found by a scan: where it is and how many bytes it held.
#[derive(Debug)]
pub struct FileInfo {
    pub path: String,
    pub size: usize,
}

impl View for FileInfo {
    type V = FileView;

    open spec fn view(&self) -> FileView {
        FileView { path: self.path@, size: self.size as nat }
    }
}

impl Clone for FileInfo {
    /// A copy that equals the file.
    fn clone(&self) -> (copy: Self)
        ensures
            copy == *self,
    {
        FileInfo { path: self.path.clone(), size: self.size }
    }
}

impl Default for FileInfo {
    /// A file with an empty path and no bytes.
    fn default() -> (file: Self)
        ensures
            file@ == (FileView { path: Seq::empty(), size: 0 }),
    {
        FileInfo { path: String::new(), size: 0 }
    }
}

impl FileInfo {
    /// A file with the path `path` and the length `size`.
    pub fn new(path: String, size: usize) -> (file: Self)
        ensures
            file.path == path,
            file.size == size,
            file@ == (FileView { path: path@, size: size as nat }),
    {
        FileInfo { path, size }
    }

    /// The file's base name: what a receiver calls its copy.
    pub fn name(&self) -> (name: &str)
        ensures
            name@ == base_name(self.path@),
    {
        file_name(self.path.as_str())
    }
}

/// A folder found by a scan, with what it holds in the order of the scan.
#[derive(Debug)]
pub struct FolderInfo {
    pub path: String,
    pub size: usize,
    pub elements: Vec<FileSystemElement>,
}

/// A node of the tree: a folder or a file, each with its selection flag.
#[derive(Debug)]
pub enum FileSystemElement {
    Folder(Box<FolderInfo>, bool),
    File(FileInfo, bool),
}

impl FolderInfo {
    /// The folder as the contracts see it.
    pub open spec fn model(&self) -> FolderView
        decreases self,
    {
        FolderView {
            path: self.path@,
            size: self.size as nat,
            children: Seq::new(
                self.elements@.len(),
                |i: int|
                    if 0 <= i < self.elements@.len() {
                        self.elements@[i].model()
                    } else {
                        arbitrary()
                    },
            ),
        }
    }

    /// A folder with the path `path`, the size `size` and the content `elements`.
    pub fn new(path: String, size: usize, elements: Vec<FileSystemElement>) -> (folder: Self)
        ensures
            folder.path == path,
            folder.size == size,
            folder.elements == elements,
    {
        FolderInfo { path, size, elements }
    }

    /// The folder's base name.
    pub fn name(&self) -> (name: &str)
        ensures
            name@ == base_name(self.path@),
    {
        file_name(self.path.as_str())
    }

    /// Appends a file that a scan has found, not selected.
    pub fn push_file(&mut self, file: FileInfo)
        ensures
            final(self)@ == (FolderView {
                path: old(self)@.path,
                size: old(self)@.size,
                children: old(self)@.children.push(NodeView::File(file@, false)),
            }),
    {
        self.elements.push(FileSystemElement::File(file, false));
        assert(self@.children =~= old(self)@.children.push(NodeView::File(file@, false)));
    }

    /// Appends a folder that a scan has found and walked, not selected.
    pub fn push_folder(&mut self, folder: FolderInfo)
        ensures
            final(self)@ == (FolderView {
                path: old(self)@.path,
                size: old(self)@.size,
                children: old(self)@.children.push(NodeView::Folder(folder@, false)),
            }),
    {
        self.elements.push(FileSystemElement::Folder(Box::new(folder), false));
        assert(self@.children =~= old(self)@.children.push(NodeView::Folder(folder@, false)));
    }

    /// Sets the folder's size to the lengths of all files below it, added up.
    /// Where the sum is more than a `usize` holds, the size stays as it is
    /// and the result is `false`.
    pub fn update_size(&mut self) -> (fits: bool)
        ensures
            fits <==> total_size(old(self)@.entries()) <= usize::MAX,
            fits ==> final(self)@ == (FolderView {
                path: old(self)@.path,
                size: total_size(old(self)@.entries()),
                children: old(self)@.children,
            }),
            !fits ==> final(self)@ == old(self)@,
    {
        match dir_size(self) {
            Some(total) => {
                if total <= usize::MAX as u64 {
                    self.size = total as usize;
                    assert(self@.children =~= old(self)@.children);
                    true
                } else {
                    false
                }
            },
            None => false,
        }
    }
}

impl Default for FolderInfo {
    /// A folder with an empty path that holds nothing.
    fn default() -> (folder: Self)
        ensures
            folder@ == (FolderView { path: Seq::empty(), size: 0, children: Seq::empty() }),
    {
        let folder = FolderInfo { path: String::new(), size: 0, elements: Vec::new() };
        assert(folder@.children =~= Seq::empty());
        folder
    }
}

impl View for FolderInfo {
    type V = FolderView;

    open spec fn view(&self) -> FolderView {
        self.model()
    }
}

impl FileSystemElement {
    /// The node as the contracts see it.
    pub open spec fn model(&self) -> NodeView
        decreases self,
    {
        match self {
            FileSystemElement::Folder(folder, selected) => NodeView::Folder(
                folder.model(),
                *selected,
            ),
            FileSystemElement::File(file, selected) => NodeView::File(file@, *selected),
        }
    }
}

impl View for FileSystemElement {
    type V = NodeView;

    open spec fn view(&self) -> NodeView {
        self.model()
    }
}

/// The files of a list as the contracts see them.
pub open spec fn file_views(files: Seq<FileInfo>) -> Seq<FileView> {
    Seq::new(files.len(), |i: int| files[i]@)
}

/// A file had to leave the list of selected files and was not in it: the list
/// and the tree it was handed with did not agree.
#[derive(Debug)]
pub struct SelectionConsistencyError;

/// Finds the first file of `files` whose path is `path`.
pub fn position_by_path(files: &Vec<FileInfo>, path: &String) -> (found: Option<usize>)
    ensures
        found is Some <==> contains_path(file_views(files@), path@),
        found matches Some(index) ==> index == position_of(file_views(files@), path@),
{
    let mut i: usize = 0;
    while i < files.len()
        invariant
            i <= files.len(),
            forall|j: int| 0 <= j < i ==> (#[trigger] file_views(files@)[j]).path != path@,
        decreases files.len() - i,
    {
        if files[i].path == *path {
            proof {
                lemma_position_of(file_views(files@), path@, i as int);
            }
            return Some(i);
        }
        i += 1;
    }
    proof {
        lemma_position_of(file_views(files@), path@, i as int);
    }
    None
}

/// Drives every file and folder below `folder` to the flag `is_selected` and
/// keeps `selected_files` in step: a file that becomes selected is appended, a
/// file that stops being selected has its entry removed. A node that already
/// has the flag changes nothing in the list.
///
/// The walk never stops half way. Where a file that stops being selected has
/// no entry in the list, the list keeps what it has, the walk goes on, and the
/// result reports the inconsistency.
pub fn selected(
    folder: &mut FolderInfo,
    is_selected: bool,
    selected_files: &mut Vec<FileInfo>,
) -> (outcome: Result<(), SelectionConsistencyError>)
    ensures
        final(folder)@ == old(folder)@.with_selection(is_selected),
        file_views(final(selected_files)@) == cascade(
            file_views(old(selected_files)@),
            old(folder)@.entries(),
            is_selected,
        ),
        outcome is Ok <==> cascade_is_consistent(
            file_views(old(selected_files)@),
            old(folder)@.entries(),
            is_selected,
        ),
    decreases *old(folder),
{
    let ghost before = old(folder)@.children;
    let ghost list = file_views(old(selected_files)@);
    let n = folder.elements.len();
    let mut consistent = true;
    let mut i: usize = 0;
    while i < n
        invariant
            i <= n,
            folder.path == old(folder).path,
            folder.size == old(folder).size,
            folder.elements@.len() == n,
            old(folder).elements@.len() == n,
            before == old(folder)@.children,
            list == file_views(old(selected_files)@),
            forall|j: int|
                0 <= j < i ==> (#[trigger] folder.elements@[j]).model() == before[j].with_selection(
                    is_selected,
                ),
            forall|j: int|
                i <= j < n ==> #[trigger] folder.elements@[j] == old(folder).elements@[j],
            file_views(selected_files@) == cascade(
                list,
                entries_of(before.take(i as int)),
                is_selected,
            ),
            consistent == cascade_is_consistent(
                list,
                entries_of(before.take(i as int)),
                is_selected,
            ),
        decreases n - i,
    {
        let ghost done = entries_of(before.take(i as int));
        let ghost current = file_views(selected_files@);
        proof {
            lemma_entries_of_next(before, i as int);
            lemma_cascade_concat(list, done, before[i as int].entries(), is_selected);
            assert(before[i as int] == old(folder).elements@[i as int].model());
        }
        match &mut folder.elements[i] {
            FileSystemElement::Folder(sub, flag) => {
                *flag = is_selected;
                let inner = selected(&mut **sub, is_selected, selected_files);
                if inner.is_err() {
                    consistent = false;
                }
            },
            FileSystemElement::File(file, flag) => {
                proof {
                    lemma_cascade_single(current, (file@, *flag), is_selected);
                }
                if *flag != is_selected {
                    *flag = is_selected;
                    if is_selected {
                        selected_files.push(file.clone());
                        assert(file_views(selected_files@) =~= current.push(file@));
                    } else {
                        match position_by_path(selected_files, &file.path) {
                            Some(index) => {
                                selected_files.remove(index);
                                assert(file_views(selected_files@) =~= current.remove(
                                    index as int,
                                ));
                            },
                            None => {
                                consistent = false;
                            },
                        }
                    }
                }
            },
        }
        i += 1;
    }
    proof {
        assert(before.take(n as int) =~= before);
        assert(folder@.children =~= old(folder)@.with_selection(is_selected).children);
    }
    if consistent {
        Ok(())
    } else {
        Err(SelectionConsistencyError)
    }
}

/// Inverts the flag of the first file below `folder` whose path is `path`, and
/// keeps `selected_files` in step: the file is appended where it became
/// selected, and its entry removed where it stopped being selected.
///
/// Returns `Ok(true)` where such a file was found, `Ok(false)` where the tree
/// holds none and nothing changed, and the error where the file stopped being
/// selected and had no entry in the list; the flag is inverted all the same.
pub fn toggle_file(
    folder: &mut FolderInfo,
    path: &String,
    selected_files: &mut Vec<FileInfo>,
) -> (outcome: Result<bool, SelectionConsistencyError>)
    ensures
        final(folder)@ == old(folder)@.flip_file(path@),
        file_views(final(selected_files)@) == list_after_file_toggle(
            file_views(old(selected_files)@),
            old(folder)@.find_file(path@),
        ),
        outcome is Ok <==> file_toggle_is_consistent(
            file_views(old(selected_files)@),
            old(folder)@.find_file(path@),
        ),
        outcome matches Ok(found) ==> found == (old(folder)@.find_file(path@) is Some),
    decreases *old(folder),
{
    let ghost before = old(folder)@.children;
    let ghost list = file_views(old(selected_files)@);
    let n = folder.elements.len();
    let mut i: usize = 0;
    while i < n
        invariant
            i <= n,
            folder.path == old(folder).path,
            folder.size == old(folder).size,
            folder.elements@.len() == n,
            before == old(folder)@.children,
            before.len() == n,
            list == file_views(old(selected_files)@),
            forall|j: int| 0 <= j < n ==> (#[trigger] folder.elements@[j]).model() == before[j],
            forall|j: int|
                i <= j < n ==> #[trigger] folder.elements@[j] == old(folder).elements@[j],
            forall|j: int| 0 <= j < i ==> (#[trigger] before[j]).find_file(path@) is None,
            file_views(selected_files@) == list,
        decreases n - i,
    {
        let mut hit: Option<Result<bool, SelectionConsistencyError>> = None;
        match &mut folder.elements[i] {
            FileSystemElement::File(file, flag) => {
                if file.path == *path {
                    *flag = !*flag;
                    if *flag {
                        selected_files.push(file.clone());
                        assert(file_views(selected_files@) =~= list.push(file@));
                        hit = Some(Ok(true));
                    } else {
                        match position_by_path(selected_files, &file.path) {
                            Some(index) => {
                                selected_files.remove(index);
                                assert(file_views(selected_files@) =~= list.remove(index as int));
                                hit = Some(Ok(true));
                            },
                            None => {
                                hit = Some(Err(SelectionConsistencyError));
                            },
                        }
                    }
                }
            },
            FileSystemElement::Folder(sub, _) => {
                let ghost inside = sub@.children;
                let inner = toggle_file(&mut **sub, path, selected_files);
                match inner {
                    Ok(false) => {
                        proof {
                            lemma_flip_file_absent_in(inside, path@);
                        }
                    },
                    _ => {
                        hit = Some(inner);
                    },
                }
            },
        }
        if let Some(result) = hit {
            proof {
                lemma_file_search_at(before, path@, i as int);
                assert(folder@.children =~= before.update(
                    i as int,
                    before[i as int].flip_file(path@),
                ));
            }
            return result;
        }
        i += 1;
    }
    proof {
        lemma_file_search_at(before, path@, n as int);
        assert(folder@.children =~= before);
    }
    Ok(false)
}

/// Inverts the flag of the first folder below `folder` whose path is `path`,
/// hands the new value down to everything that folder holds, and keeps
/// `selected_files` in step as `selected` does.
///
/// Returns `Ok(true)` where such a folder was found, `Ok(false)` where the
/// tree holds none and nothing changed, and the error where a file that
/// stopped being selected had no entry in the list.
pub fn toggle_folder(
    folder: &mut FolderInfo,
    path: &String,
    selected_files: &mut Vec<FileInfo>,
) -> (outcome: Result<bool, SelectionConsistencyError>)
    ensures
        final(folder)@ == old(folder)@.toggle_folder(path@),
        file_views(final(selected_files)@) == list_after_folder_toggle(
            file_views(old(selected_files)@),
            old(folder)@.find_folder(path@),
        ),
        outcome is Ok <==> folder_toggle_is_consistent(
            file_views(old(selected_files)@),
            old(folder)@.find_folder(path@),
        ),
        outcome matches Ok(found) ==> found == (old(folder)@.find_folder(path@) is Some),
    decreases *old(folder),
{
    let ghost before = old(folder)@.children;
    let ghost list = file_views(old(selected_files)@);
    let n = folder.elements.len();
    let mut i: usize = 0;
    while i < n
        invariant
            i <= n,
            folder.path == old(folder).path,
            folder.size == old(folder).size,
            folder.elements@.len() == n,
            before == old(folder)@.children,
            before.len() == n,
            list == file_views(old(selected_files)@),
            forall|j: int| 0 <= j < n ==> (#[trigger] folder.elements@[j]).model() == before[j],
            forall|j: int|
                i <= j < n ==> #[trigger] folder.elements@[j] == old(folder).elements@[j],
            forall|j: int| 0 <= j < i ==> (#[trigger] before[j]).find_folder(path@) is None,
            file_views(selected_files@) == list,
        decreases n - i,
    {
        let mut hit: Option<Result<bool, SelectionConsistencyError>> = None;
        match &mut folder.elements[i] {
            FileSystemElement::File(_, _) => {},
            FileSystemElement::Folder(sub, flag) => {
                if sub.path == *path {
                    *flag = !*flag;
                    match selected(&mut **sub, *flag, selected_files) {
                        Ok(()) => {
                            hit = Some(Ok(true));
                        },
                        Err(error) => {
                            hit = Some(Err(error));
                        },
                    }
                } else {
                    let ghost inside = sub@.children;
                    let inner = toggle_folder(&mut **sub, path, selected_files);
                    match inner {
                        Ok(false) => {
                            proof {
                                lemma_toggle_folder_absent_in(inside, path@);
                            }
                        },
                        _ => {
                            hit = Some(inner);
                        },
                    }
                }
            },
        }
        if let Some(result) = hit {
            proof {
                lemma_folder_search_at(before, path@, i as int);
                assert(folder@.children =~= before.update(
                    i as int,
                    before[i as int].toggle_folder(path@),
                ));
            }
            return result;
        }
        i += 1;
    }
    proof {
        lemma_folder_search_at(before, path@, n as int);
        assert(folder@.children =~= before);
    }
    Ok(false)
}

/// The files below a folder that a listing picks: all of them, or those
/// whose flag is set.
pub open spec fn listed(folder: FolderView, selected_only: bool) -> Seq<FileView> {
    if selected_only {
        files_with_flag(folder.entries(), true)
    } else {
        files_of(folder.entries())
    }
}

/// Appends to `out` the files below `folder` in walk order: all of them, or,
/// with `selected_only`, those whose flag is set.
pub fn collect_files(folder: &FolderInfo, selected_only: bool, out: &mut Vec<FileInfo>)
    ensures
        file_views(final(out)@) == file_views(old(out)@) + listed(folder@, selected_only),
    decreases folder,
{
    let ghost children = folder@.children;
    let ghost start = file_views(old(out)@);
    let n = folder.elements.len();
    let mut i: usize = 0;
    while i < n
        invariant
            i <= n,
            n == folder.elements@.len(),
            children == folder@.children,
            start == file_views(old(out)@),
            file_views(out@) == start + (if selected_only {
                files_with_flag(entries_of(children.take(i as int)), true)
            } else {
                files_of(entries_of(children.take(i as int)))
            }),
        decreases n - i,
    {
        let ghost done = entries_of(children.take(i as int));
        let ghost current = file_views(out@);
        proof {
            lemma_entries_of_next(children, i as int);
            lemma_files_with_flag_concat(done, children[i as int].entries(), true);
            assert(children[i as int] == folder.elements@[i as int].model());
            assert(files_of(done + children[i as int].entries()) =~= files_of(done) + files_of(
                children[i as int].entries(),
            ));
        }
        match &folder.elements[i] {
            FileSystemElement::Folder(sub, _) => {
                collect_files(sub, selected_only, out);
                assert(file_views(out@) =~= start + (if selected_only {
                    files_with_flag(entries_of(children.take(i + 1)), true)
                } else {
                    files_of(entries_of(children.take(i + 1)))
                }));
            },
            FileSystemElement::File(file, flag) => {
                proof {
                    let single = seq![(file@, *flag)];
                    assert(single.drop_last() =~= Seq::empty());
                    assert(files_with_flag(single.drop_last(), true) =~= Seq::empty());
                    assert(files_of(single) =~= seq![file@]);
                }
                if !selected_only || *flag {
                    out.push(file.clone());
                    assert(file_views(out@) =~= current.push(file@));
                }
                assert(file_views(out@) =~= start + (if selected_only {
                    files_with_flag(entries_of(children.take(i + 1)), true)
                } else {
                    files_of(entries_of(children.take(i + 1)))
                }));
            },
        }
        i += 1;
    }
    proof {
        assert(children.take(n as int) =~= children);
    }
}

/// The lengths of all files below `folder`, added up; `None` where the sum
/// is more than a `u64` holds.
pub fn dir_size(folder: &FolderInfo) -> (total: Option<u64>)
    ensures
        total is Some <==> total_size(folder@.entries()) <= u64::MAX,
        total matches Some(sum) ==> sum == total_size(folder@.entries()),
    decreases folder,
{
    let ghost children = folder@.children;
    let n = folder.elements.len();
    let mut sum: u64 = 0;
    let mut i: usize = 0;
    while i < n
        invariant
            i <= n,
            n == folder.elements@.len(),
            children == folder@.children,
            sum == total_size(entries_of(children.take(i as int))),
        decreases n - i,
    {
        let ghost done = entries_of(children.take(i as int));
        proof {
            lemma_entries_of_next(children, i as int);
            lemma_total_size_concat(done, children[i as int].entries());
            lemma_entries_of_split(children, i as int);
            lemma_total_size_concat(
                done + children[i as int].entries(),
                entries_of(children.skip(i + 1)),
            );
            assert(children[i as int] == folder.elements@[i as int].model());
        }
        let inner: Option<u64> = match &folder.elements[i] {
            FileSystemElement::Folder(sub, _) => dir_size(sub),
            FileSystemElement::File(file, flag) => {
                proof {
                    let single = seq![(file@, *flag)];
                    assert(single.drop_last() =~= Seq::empty());
                    assert(total_size(single.drop_last()) == 0);
                }
                Some(file.size as u64)
            },
        };
        let next = match inner {
            Some(part) => sum.checked_add(part),
            None => None,
        };
        match next {
            Some(more) => {
                sum = more;
            },
            None => {
                return None;
            },
        }
        i += 1;
    }
    proof {
        assert(children.take(n as int) =~= children);
    }
    Some(sum)
}

/// Copies a list of files.
pub fn clone_files(files: &Vec<FileInfo>) -> (copy: Vec<FileInfo>)
    ensures
        file_views(copy@) == file_views(files@),
{
    let mut copy: Vec<FileInfo> = Vec::new();
    let mut i: usize = 0;
    while i < files.len()
        invariant
            i <= files@.len(),
            file_views(copy@) == file_views(files@.take(i as int)),
        decreases files@.len() - i,
    {
        let ghost before = file_views(copy@);
        copy.push(files[i].clone());
        assert(file_views(copy@) =~= before.push(files@[i as int]@));
        assert(before.push(files@[i as int]@) =~= file_views(files@.take(i + 1)));
        i += 1;
    }
    assert(files@.take(files@.len() as int) =~= files@);
    copy
}

/// Whether no two files of the list have the same path.
pub fn has_distinct_paths(files: &Vec<FileInfo>) -> (distinct: bool)
    ensures
        distinct == distinct_paths(file_views(files@)),
{
    let n = files.len();
    let mut j: usize = 0;
    while j < n
        invariant
            j <= n,
            n == files@.len(),
            forall|a: int, b: int|
                #![trigger file_views(files@)[a], file_views(files@)[b]]
                0 <= a < b < j ==> file_views(files@)[a].path != file_views(files@)[b].path,
        decreases n - j,
    {
        let mut i: usize = 0;
        while i < j
            invariant
                i <= j < n,
                n == files@.len(),
                forall|a: int|
                    0 <= a < i ==> (#[trigger] file_views(files@)[a]).path != file_views(
                        files@,
                    )[j as int].path,
            decreases j - i,
        {
            if files[i].path == files[j].path {
                assert(file_views(files@)[i as int].path == file_views(files@)[j as int].path);
                return false;
            }
            i += 1;
        }
        j += 1;
    }
    true
}

/// Two files of the tree have the same path, so that a path no longer names
/// one file.
#[derive(Debug)]
pub struct DuplicatePathError;

/// The root of the tree with its own selection flag.
#[derive(Debug)]
pub struct RootFolder {
    inner: FolderInfo,
    selected: bool,
}

impl RootFolder {
    /// The root as a node of the tree.
    pub closed spec fn model(&self) -> NodeView {
        NodeView::Folder(self.inner@, self.selected)
    }

    /// Takes a scanned folder as the root, not selected.
    pub fn new(root: FolderInfo) -> (folder: Self)
        ensures
            folder.model() == NodeView::Folder(root@, false),
    {
        RootFolder { inner: root, selected: false }
    }
}

/// The tree of files on offer and the list of those that are selected.
#[derive(Debug)]
pub struct FileSystem {
    root_folder: RootFolder,
    selected_files: Vec<FileInfo>,
}

impl View for FileSystem {
    type V = FileSystemView;

    closed spec fn view(&self) -> FileSystemView {
        FileSystemView {
            tree: self.root_folder.model(),
            selection: file_views(self.selected_files@),
        }
    }
}

impl FileSystem {
    /// The list holds exactly the files whose flag is set, once each, and no
    /// two files of the tree share a path.
    pub open spec fn wf(&self) -> bool {
        self@.wf()
    }

    /// Takes a scanned folder as the tree. The root starts unselected, and the
    /// list starts with the files of the tree whose flag is set, in walk order.
    /// A tree in which two files share a path is refused.
    pub fn new(root: FolderInfo) -> (made: Result<FileSystem, DuplicatePathError>)
        ensures
            made is Ok <==> distinct_paths(files_of(root@.entries())),
            made matches Ok(system) ==> system.wf() && system@.tree == NodeView::Folder(
                root@,
                false,
            ) && system@.selection == files_with_flag(root@.entries(), true),
    {
        let mut all: Vec<FileInfo> = Vec::new();
        collect_files(&root, false, &mut all);
        assert(file_views(all@) =~= files_of(root@.entries()));
        if !has_distinct_paths(&all) {
            return Err(DuplicatePathError);
        }
        let mut selected_files: Vec<FileInfo> = Vec::new();
        collect_files(&root, true, &mut selected_files);
        assert(file_views(selected_files@) =~= files_with_flag(root@.entries(), true));
        proof {
            lemma_files_with_flag_contains(root@.entries(), true);
            lemma_files_with_flag_distinct(root@.entries(), true);
        }
        Ok(FileSystem { root_folder: RootFolder::new(root), selected_files })
    }

    /// The selected files, in the order in which they were selected.
    pub fn selected_files(&self) -> (files: &Vec<FileInfo>)
        ensures
            file_views(files@) == self@.selection,
    {
        &self.selected_files
    }

    /// The folder at the root of the tree.
    pub fn root(&self) -> (folder: &FolderInfo)
        ensures
            self@.tree matches NodeView::Folder(root, _) && root == folder@,
    {
        &self.root_folder.inner
    }

    /// The selection flag of the root.
    pub fn root_selected(&self) -> (selected: bool)
        ensures
            self@.tree matches NodeView::Folder(_, flag) && flag == selected,
    {
        self.root_folder.selected
    }

    /// Inverts the flag of the file with the path `path` and appends it to the
    /// selected files or removes it from them. Returns whether the tree holds
    /// such a file; where it holds none, nothing changes.
    pub fn toggle_file(&mut self, path: &str) -> (found: bool)
        requires
            old(self).wf(),
        ensures
            final(self).wf(),
            final(self)@ == old(self)@.toggle_file(path@),
            found == (old(self)@.tree.find_file(path@) is Some),
    {
        let wanted = path.to_owned();
        proof {
            lemma_toggle_file_keeps_wf(self@, path@);
        }
        let outcome = toggle_file(
            &mut self.root_folder.inner,
            &wanted,
            &mut self.selected_files,
        );
        match outcome {
            Ok(found) => found,
            Err(_) => {
                // The list and the tree agree, so no entry can be missing.
                assert(false);
                false
            },
        }
    }

    /// Inverts the flag of the folder with the path `path`, the root included,
    /// hands the new value down to every file and folder in it, and appends to
    /// the selected files those that became selected or removes those that
    /// stopped being selected. Returns whether the tree holds such a folder;
    /// where it holds none, nothing changes.
    pub fn toggle_folder(&mut self, path: &str) -> (found: bool)
        requires
            old(self).wf(),
        ensures
            final(self).wf(),
            final(self)@ == old(self)@.toggle_folder(path@),
            found == (old(self)@.tree.find_folder(path@) is Some),
    {
        let wanted = path.to_owned();
        proof {
            lemma_toggle_folder_keeps_wf(self@, path@);
        }
        let outcome = if self.root_folder.inner.path == wanted {
            self.root_folder.selected = !self.root_folder.selected;
            match selected(
                &mut self.root_folder.inner,
                self.root_folder.selected,
                &mut self.selected_files,
            ) {
                Ok(()) => Ok(true),
                Err(error) => Err(error),
            }
        } else {
            toggle_folder(&mut self.root_folder.inner, &wanted, &mut self.selected_files)
        };
        match outcome {
            Ok(found) => found,
            Err(_) => {
                // The list and the tree agree, so no entry can be missing.
                assert(false);
                false
            },
        }
    }
}

impl Default for FileSystem {
    /// An empty tree with nothing selected.
    fn default() -> (system: Self)
        ensures
            system.wf(),
            system@ == (FileSystemView {
                tree: NodeView::Folder(
                    FolderView { path: Seq::empty(), size: 0, children: Seq::empty() },
                    false,
                ),
                selection: Seq::empty(),
            }),
    {
        let system = FileSystem {
            root_folder: RootFolder::new(FolderInfo::default()),
            selected_files: Vec::new(),
        };
        assert(system@.selection =~= Seq::empty());
        assert(files_of(system@.tree.entries()) =~= Seq::empty());
        system
    }
}

} // verus!
