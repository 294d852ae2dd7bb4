//! The mathematical model of a scanned directory tree and of the list of
//! selected files that is kept beside it.

use vstd::prelude::*;

verus! {

/// A file as the contracts see it: its path and its length in bytes.
pub struct FileView {
    pub path: Seq<char>,
    pub size: nat,
}

/// A folder as the contracts see it.
pub struct FolderView {
    pub path: Seq<char>,
    pub size: nat,
    pub children: Seq<NodeView>,
}

/// A node of the tree together with its selection flag.
pub enum NodeView {
    Folder(FolderView, bool),
    File(FileView, bool),
}

/// A file leaf and its selection flag.
pub type Entry = (FileView, bool);

impl NodeView {
    /// The path of the file or folder.
    pub open spec fn path(self) -> Seq<char> {
        match self {
            NodeView::File(file, _) => file.path,
            NodeView::Folder(folder, _) => folder.path,
        }
    }

    /// The file leaves below this node with their flags, in the order in which a
    /// walk meets them: children from first to last, a folder's content in the
    /// folder's place.
    pub open spec fn entries(self) -> Seq<Entry>
        decreases self,
    {
        match self {
            NodeView::File(file, selected) => seq![(file, selected)],
            NodeView::Folder(folder, _) => entries_of(folder.children),
        }
    }

    /// This node with the flag of every node in it, itself included, set to `value`.
    pub open spec fn with_selection(self, value: bool) -> NodeView
        decreases self,
    {
        match self {
            NodeView::File(file, _) => NodeView::File(file, value),
            NodeView::Folder(folder, _) => NodeView::Folder(folder.with_selection(value), value),
        }
    }

    /// The first file leaf in walk order whose path is `path`, with its flag.
    pub open spec fn find_file(self, path: Seq<char>) -> Option<Entry>
        decreases self,
    {
        match self {
            NodeView::File(file, selected) => if file.path == path {
                Some((file, selected))
            } else {
                None
            },
            NodeView::Folder(folder, _) => find_file_in(folder.children, path),
        }
    }

    /// This node with the flag of that file leaf inverted; the node itself
    /// where no leaf has the path.
    pub open spec fn flip_file(self, path: Seq<char>) -> NodeView
        decreases self,
    {
        match self {
            NodeView::File(file, selected) => if file.path == path {
                NodeView::File(file, !selected)
            } else {
                self
            },
            NodeView::Folder(folder, selected) => NodeView::Folder(
                FolderView {
                    path: folder.path,
                    size: folder.size,
                    children: flip_file_in(folder.children, path),
                },
                selected,
            ),
        }
    }

    /// The first folder in walk order whose path is `path`, with its flag. A
    /// folder comes before what it holds.
    pub open spec fn find_folder(self, path: Seq<char>) -> Option<(FolderView, bool)>
        decreases self,
    {
        match self {
            NodeView::File(_, _) => None,
            NodeView::Folder(folder, selected) => if folder.path == path {
                Some((folder, selected))
            } else {
                find_folder_in(folder.children, path)
            },
        }
    }

    /// This node after that folder's flag has been inverted and its new value
    /// handed down to everything the folder holds; the node itself where no
    /// folder has the path.
    pub open spec fn toggle_folder(self, path: Seq<char>) -> NodeView
        decreases self,
    {
        match self {
            NodeView::File(_, _) => self,
            NodeView::Folder(folder, selected) => if folder.path == path {
                NodeView::Folder(folder.with_selection(!selected), !selected)
            } else {
                NodeView::Folder(
                    FolderView {
                        path: folder.path,
                        size: folder.size,
                        children: toggle_folder_in(folder.children, path),
                    },
                    selected,
                )
            },
        }
    }
}

impl FolderView {
    /// The file leaves of the folder with their flags, in walk order.
    pub open spec fn entries(self) -> Seq<Entry> {
        entries_of(self.children)
    }

    /// The folder with the flag of every descendant set to `value`.
    pub open spec fn with_selection(self, value: bool) -> FolderView
        decreases self,
    {
        FolderView {
            path: self.path,
            size: self.size,
            children: Seq::new(
                self.children.len(),
                |i: int|
                    if 0 <= i < self.children.len() {
                        self.children[i].with_selection(value)
                    } else {
                        arbitrary()
                    },
            ),
        }
    }

    /// The first file leaf of the folder whose path is `path`.
    pub open spec fn find_file(self, path: Seq<char>) -> Option<Entry> {
        find_file_in(self.children, path)
    }

    /// The folder with the flag of that file leaf inverted.
    pub open spec fn flip_file(self, path: Seq<char>) -> FolderView {
        FolderView { path: self.path, size: self.size, children: flip_file_in(self.children, path) }
    }

    /// The first folder below this one whose path is `path`.
    pub open spec fn find_folder(self, path: Seq<char>) -> Option<(FolderView, bool)> {
        find_folder_in(self.children, path)
    }

    /// The folder after that folder below it has been toggled.
    pub open spec fn toggle_folder(self, path: Seq<char>) -> FolderView {
        FolderView {
            path: self.path,
            size: self.size,
            children: toggle_folder_in(self.children, path),
        }
    }
}

/// The first file leaf with the path `path` among sibling nodes and what they hold.
pub open spec fn find_file_in(nodes: Seq<NodeView>, path: Seq<char>) -> Option<Entry>
    decreases nodes,
{
    if nodes.len() == 0 {
        None
    } else if nodes.first().find_file(path) is Some {
        nodes.first().find_file(path)
    } else {
        find_file_in(nodes.drop_first(), path)
    }
}

/// The siblings with the flag of that leaf inverted.
pub open spec fn flip_file_in(nodes: Seq<NodeView>, path: Seq<char>) -> Seq<NodeView>
    decreases nodes,
{
    if nodes.len() == 0 {
        nodes
    } else if nodes.first().find_file(path) is Some {
        seq![nodes.first().flip_file(path)] + nodes.drop_first()
    } else {
        seq![nodes.first()] + flip_file_in(nodes.drop_first(), path)
    }
}

/// The first folder with the path `path` among sibling nodes and what they hold.
pub open spec fn find_folder_in(nodes: Seq<NodeView>, path: Seq<char>) -> Option<(FolderView, bool)>
    decreases nodes,
{
    if nodes.len() == 0 {
        None
    } else if nodes.first().find_folder(path) is Some {
        nodes.first().find_folder(path)
    } else {
        find_folder_in(nodes.drop_first(), path)
    }
}

/// The siblings after that folder has been toggled.
pub open spec fn toggle_folder_in(nodes: Seq<NodeView>, path: Seq<char>) -> Seq<NodeView>
    decreases nodes,
{
    if nodes.len() == 0 {
        nodes
    } else if nodes.first().find_folder(path) is Some {
        seq![nodes.first().toggle_folder(path)] + nodes.drop_first()
    } else {
        seq![nodes.first()] + toggle_folder_in(nodes.drop_first(), path)
    }
}

/// The file leaves of a run of sibling nodes, in walk order.
pub open spec fn entries_of(nodes: Seq<NodeView>) -> Seq<Entry>
    decreases nodes,
{
    if nodes.len() == 0 {
        Seq::empty()
    } else {
        entries_of(nodes.drop_last()) + nodes.last().entries()
    }
}

/// The files of a run of leaves, flags left out.
pub open spec fn files_of(entries: Seq<Entry>) -> Seq<FileView> {
    Seq::new(entries.len(), |i: int| entries[i].0)
}

/// The files of those leaves whose flag is `flag`, in walk order.
pub open spec fn files_with_flag(entries: Seq<Entry>, flag: bool) -> Seq<FileView>
    decreases entries.len(),
{
    if entries.len() == 0 {
        Seq::empty()
    } else if entries.last().1 == flag {
        files_with_flag(entries.drop_last(), flag).push(entries.last().0)
    } else {
        files_with_flag(entries.drop_last(), flag)
    }
}

/// The lengths of the files of a run of leaves, added up.
pub open spec fn total_size(entries: Seq<Entry>) -> nat
    decreases entries.len(),
{
    if entries.len() == 0 {
        0
    } else {
        total_size(entries.drop_last()) + entries.last().0.size
    }
}

/// The same leaves, each with the flag `flag`.
pub open spec fn set_flags(entries: Seq<Entry>, flag: bool) -> Seq<Entry> {
    Seq::new(entries.len(), |i: int| (entries[i].0, flag))
}

/// No two files of the list have the same path.
pub open spec fn distinct_paths(files: Seq<FileView>) -> bool {
    forall|i: int, j: int|
        #![trigger files[i], files[j]]
        0 <= i < j < files.len() ==> files[i].path != files[j].path
}

/// Whether some selected leaf of `entries` has the path `path`.
pub open spec fn has_selected_path(entries: Seq<Entry>, path: Seq<char>) -> bool {
    exists|i: int| 0 <= i < entries.len() && (#[trigger] entries[i]).1 && entries[i].0.path == path
}

/// The index of the first file in `list` whose path is `path`, or the length
/// of `list` where none has it.
pub open spec fn position_of(list: Seq<FileView>, path: Seq<char>) -> int
    decreases list.len(),
{
    if list.len() == 0 {
        0
    } else if list.first().path == path {
        0
    } else {
        1 + position_of(list.drop_first(), path)
    }
}

/// Whether some file in `list` has the path `path`.
pub open spec fn contains_path(list: Seq<FileView>, path: Seq<char>) -> bool {
    position_of(list, path) < list.len()
}

/// `list` without the first file whose path is `path`; `list` itself where none has it.
pub open spec fn remove_path(list: Seq<FileView>, path: Seq<char>) -> Seq<FileView> {
    if contains_path(list, path) {
        list.remove(position_of(list, path))
    } else {
        list
    }
}

/// The list of selected files after one file leaf has been driven to `value`:
/// a leaf that already has the flag leaves the list as it is, a leaf that
/// becomes selected is appended, and one that stops being selected has its
/// entry taken out.
pub open spec fn apply_entry(list: Seq<FileView>, entry: Entry, value: bool) -> Seq<FileView> {
    if entry.1 == value {
        list
    } else if value {
        list.push(entry.0)
    } else {
        remove_path(list, entry.0.path)
    }
}

/// Whether driving one leaf to `value` finds the list as the tree says it is:
/// a leaf that stops being selected must have its entry in the list.
pub open spec fn entry_is_consistent(list: Seq<FileView>, entry: Entry, value: bool) -> bool {
    entry.1 == value || value || contains_path(list, entry.0.path)
}

/// The list of selected files after every leaf of `entries` has been driven
/// to `value`, one after the other in walk order.
pub open spec fn cascade(list: Seq<FileView>, entries: Seq<Entry>, value: bool) -> Seq<FileView>
    decreases entries.len(),
{
    if entries.len() == 0 {
        list
    } else {
        apply_entry(cascade(list, entries.drop_last(), value), entries.last(), value)
    }
}

/// Whether every step of that cascade finds the list consistent with the tree.
pub open spec fn cascade_is_consistent(
    list: Seq<FileView>,
    entries: Seq<Entry>,
    value: bool,
) -> bool
    decreases entries.len(),
{
    if entries.len() == 0 {
        true
    } else {
        &&& cascade_is_consistent(list, entries.drop_last(), value)
        &&& entry_is_consistent(cascade(list, entries.drop_last(), value), entries.last(), value)
    }
}

/// The list of selected files after the file leaf that a search found, if
/// any, has had its flag inverted.
pub open spec fn list_after_file_toggle(
    list: Seq<FileView>,
    found: Option<Entry>,
) -> Seq<FileView> {
    match found {
        None => list,
        Some(entry) => apply_entry(list, entry, !entry.1),
    }
}

/// Whether that toggle finds the list consistent with the tree.
pub open spec fn file_toggle_is_consistent(list: Seq<FileView>, found: Option<Entry>) -> bool {
    match found {
        None => true,
        Some(entry) => entry_is_consistent(list, entry, !entry.1),
    }
}

/// The list of selected files after the folder that a search found, if any,
/// has had its flag inverted and handed down.
pub open spec fn list_after_folder_toggle(
    list: Seq<FileView>,
    found: Option<(FolderView, bool)>,
) -> Seq<FileView> {
    match found {
        None => list,
        Some((folder, selected)) => cascade(list, folder.entries(), !selected),
    }
}

/// Whether that toggle finds the list consistent with the tree.
pub open spec fn folder_toggle_is_consistent(
    list: Seq<FileView>,
    found: Option<(FolderView, bool)>,
) -> bool {
    match found {
        None => true,
        Some((folder, selected)) => cascade_is_consistent(list, folder.entries(), !selected),
    }
}

/// A tree and the list of selected files kept beside it.
pub struct FileSystemView {
    pub tree: NodeView,
    pub selection: Seq<FileView>,
}

impl FileSystemView {
    /// The tree is rooted in a folder, no two of its files share a path, and
    /// the list holds, once each, exactly the files whose flag is set.
    pub open spec fn wf(self) -> bool {
        &&& self.tree is Folder
        &&& distinct_paths(files_of(self.tree.entries()))
        &&& distinct_paths(self.selection)
        &&& forall|file: FileView| #[trigger]
            self.selection.contains(file) <==> self.tree.entries().contains((file, true))
    }

    /// The state after the file with the path `path` has been toggled.
    pub open spec fn toggle_file(self, path: Seq<char>) -> FileSystemView {
        FileSystemView {
            tree: self.tree.flip_file(path),
            selection: list_after_file_toggle(self.selection, self.tree.find_file(path)),
        }
    }

    /// The state after the folder with the path `path` has been toggled.
    pub open spec fn toggle_folder(self, path: Seq<char>) -> FileSystemView {
        FileSystemView {
            tree: self.tree.toggle_folder(path),
            selection: list_after_folder_toggle(self.selection, self.tree.find_folder(path)),
        }
    }
}

} // verus!
