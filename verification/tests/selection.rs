use file_relay::file_io::{
    collect_files, dir_size, has_distinct_paths, position_by_path, selected, toggle_file,
    toggle_folder, FileInfo, FileSystem, FileSystemElement, FolderInfo,
};

fn file(path: &str, size: usize) -> FileInfo {
    FileInfo::new(path.to_string(), size)
}

/// root/{a.txt (5 bytes), sub/{b.txt (10 bytes)}}
fn sample_tree() -> FolderInfo {
    let mut sub = FolderInfo::new("root/sub".to_string(), 10, vec![]);
    sub.push_file(file("root/sub/b.txt", 10));
    let mut root = FolderInfo::new("root".to_string(), 15, vec![]);
    root.push_file(file("root/a.txt", 5));
    root.push_folder(sub);
    root
}

/// root/{a, d1/{b, d2/{c}}, e}
fn deep_tree() -> FolderInfo {
    let mut d2 = FolderInfo::new("root/d1/d2".to_string(), 3, vec![]);
    d2.push_file(file("root/d1/d2/c", 3));
    let mut d1 = FolderInfo::new("root/d1".to_string(), 5, vec![]);
    d1.push_file(file("root/d1/b", 2));
    d1.push_folder(d2);
    let mut root = FolderInfo::new("root".to_string(), 10, vec![]);
    root.push_file(file("root/a", 1));
    root.push_folder(d1);
    root.push_file(file("root/e", 4));
    root
}

fn paths(files: &Vec<FileInfo>) -> Vec<String> {
    files.iter().map(|f| f.path.clone()).collect()
}

fn flags(folder: &FolderInfo, out: &mut Vec<(String, bool)>) {
    for element in &folder.elements {
        match element {
            FileSystemElement::Folder(sub, flag) => {
                out.push((sub.path.clone(), *flag));
                flags(sub, out);
            }
            FileSystemElement::File(file, flag) => out.push((file.path.clone(), *flag)),
        }
    }
}

fn all_flags(system: &FileSystem) -> Vec<(String, bool)> {
    let mut out = vec![(system.root().path.clone(), system.root_selected())];
    flags(system.root(), &mut out);
    out
}

#[test]
fn file_name_is_last_component() {
    assert_eq!(file("root/uploads/a.txt", 1).name(), "a.txt");
    assert_eq!(file(".\\root\\uploads\\b.bin", 1).name(), "b.bin");
    assert_eq!(file("mixed/dir\\c.dat", 1).name(), "c.dat");
    assert_eq!(file("plain", 1).name(), "plain");
    assert_eq!(file("dir/", 1).name(), "");
    assert_eq!(file("", 1).name(), "");
    assert_eq!(file("/x/é/ü.txt", 1).name(), "ü.txt");
}

#[test]
fn folder_name_is_last_component() {
    assert_eq!(FolderInfo::new("root/sub".to_string(), 0, vec![]).name(), "sub");
    assert_eq!(FolderInfo::new(".\\root\\uploads".to_string(), 0, vec![]).name(), "uploads");
}

#[test]
fn new_system_has_nothing_selected() {
    let system = FileSystem::new(sample_tree()).unwrap();
    assert!(system.selected_files().is_empty());
    assert!(!system.root_selected());
    assert!(all_flags(&system).iter().all(|(_, flag)| !flag));
}

#[test]
fn new_system_lists_files_whose_flag_is_set() {
    let root = FolderInfo::new(
        "root".to_string(),
        3,
        vec![
            FileSystemElement::File(file("root/x", 1), true),
            FileSystemElement::File(file("root/y", 1), false),
            FileSystemElement::File(file("root/z", 1), true),
        ],
    );
    let system = FileSystem::new(root).unwrap();
    assert_eq!(paths(system.selected_files()), vec!["root/x", "root/z"]);
}

#[test]
fn tree_with_repeated_path_is_refused() {
    let mut root = FolderInfo::new("root".to_string(), 2, vec![]);
    root.push_file(file("root/a", 1));
    root.push_file(file("root/a", 1));
    assert!(FileSystem::new(root).is_err());
}

#[test]
fn selecting_root_selects_every_file() {
    let mut system = FileSystem::new(sample_tree()).unwrap();
    assert!(system.toggle_folder("root"));
    assert_eq!(paths(system.selected_files()), vec!["root/a.txt", "root/sub/b.txt"]);
    let sizes: Vec<usize> = system.selected_files().iter().map(|f| f.size).collect();
    assert_eq!(sizes, vec![5, 10]);
    assert!(all_flags(&system).iter().all(|(_, flag)| *flag));
}

#[test]
fn selecting_root_with_some_files_selected_adds_the_rest() {
    let mut system = FileSystem::new(deep_tree()).unwrap();
    assert!(system.toggle_file("root/d1/d2/c"));
    assert!(system.toggle_folder("root"));
    assert_eq!(
        paths(system.selected_files()),
        vec!["root/d1/d2/c", "root/a", "root/d1/b", "root/e"]
    );
}

#[test]
fn selecting_root_reaches_files_below_a_selected_folder() {
    let mut system = FileSystem::new(deep_tree()).unwrap();
    assert!(system.toggle_folder("root/d1"));
    assert!(system.toggle_file("root/d1/b"));
    assert_eq!(paths(system.selected_files()), vec!["root/d1/d2/c"]);
    assert!(system.toggle_folder("root"));
    let mut got = paths(system.selected_files());
    got.sort();
    assert_eq!(got, vec!["root/a", "root/d1/b", "root/d1/d2/c", "root/e"]);
    assert!(all_flags(&system).iter().all(|(_, flag)| *flag));
}

#[test]
fn folder_cascade_gives_children_the_folders_value() {
    let mut system = FileSystem::new(deep_tree()).unwrap();
    assert!(system.toggle_file("root/d1/b"));
    assert!(system.toggle_folder("root/d1"));
    assert_eq!(
        all_flags(&system),
        vec![
            ("root".to_string(), false),
            ("root/a".to_string(), false),
            ("root/d1".to_string(), true),
            ("root/d1/b".to_string(), true),
            ("root/d1/d2".to_string(), true),
            ("root/d1/d2/c".to_string(), true),
            ("root/e".to_string(), false),
        ]
    );
    assert_eq!(paths(system.selected_files()), vec!["root/d1/b", "root/d1/d2/c"]);
}

#[test]
fn toggling_folder_twice_restores_flags_and_selection() {
    let mut system = FileSystem::new(deep_tree()).unwrap();
    assert!(system.toggle_file("root/e"));
    let flags_before = all_flags(&system);
    let selected_before = paths(system.selected_files());
    assert!(system.toggle_folder("root/d1"));
    assert_eq!(paths(system.selected_files()), vec!["root/e", "root/d1/b", "root/d1/d2/c"]);
    assert!(system.toggle_folder("root/d1"));
    assert_eq!(all_flags(&system), flags_before);
    assert_eq!(paths(system.selected_files()), selected_before);
}

#[test]
fn toggling_selected_folder_twice_restores_the_set() {
    let mut system = FileSystem::new(deep_tree()).unwrap();
    assert!(system.toggle_folder("root/d1"));
    assert!(system.toggle_file("root/a"));
    let flags_before = all_flags(&system);
    let mut selected_before = paths(system.selected_files());
    assert_eq!(selected_before, vec!["root/d1/b", "root/d1/d2/c", "root/a"]);
    assert!(system.toggle_folder("root/d1"));
    assert_eq!(paths(system.selected_files()), vec!["root/a"]);
    assert!(system.toggle_folder("root/d1"));
    assert_eq!(all_flags(&system), flags_before);
    let mut selected_after = paths(system.selected_files());
    assert_eq!(selected_after, vec!["root/a", "root/d1/b", "root/d1/d2/c"]);
    selected_before.sort();
    selected_after.sort();
    assert_eq!(selected_after, selected_before);
}

#[test]
fn toggling_mixed_folder_twice_does_not_restore() {
    let mut system = FileSystem::new(deep_tree()).unwrap();
    assert!(system.toggle_file("root/d1/b"));
    assert!(system.toggle_folder("root/d1"));
    assert!(system.toggle_folder("root/d1"));
    assert!(system.selected_files().is_empty());
}

#[test]
fn toggle_file_appends_and_removes() {
    let mut system = FileSystem::new(deep_tree()).unwrap();
    assert!(system.toggle_file("root/e"));
    assert!(system.toggle_file("root/a"));
    assert!(system.toggle_file("root/d1/d2/c"));
    assert_eq!(paths(system.selected_files()), vec!["root/e", "root/a", "root/d1/d2/c"]);
    assert!(system.toggle_file("root/a"));
    assert_eq!(paths(system.selected_files()), vec!["root/e", "root/d1/d2/c"]);
    let set: Vec<String> =
        all_flags(&system).into_iter().filter(|(_, flag)| *flag).map(|(p, _)| p).collect();
    assert_eq!(set, vec!["root/d1/d2/c", "root/e"]);
}

#[test]
fn toggle_of_unknown_path_changes_nothing() {
    let mut system = FileSystem::new(deep_tree()).unwrap();
    assert!(system.toggle_file("root/e"));
    let flags_before = all_flags(&system);
    assert!(!system.toggle_file("root/nothing"));
    assert!(!system.toggle_folder("root/nothing"));
    assert!(!system.toggle_file("root/d1"));
    assert!(!system.toggle_folder("root/e"));
    assert_eq!(all_flags(&system), flags_before);
    assert_eq!(paths(system.selected_files()), vec!["root/e"]);
}

#[test]
fn deselecting_root_clears_the_selection() {
    let mut system = FileSystem::new(deep_tree()).unwrap();
    assert!(system.toggle_folder("root"));
    assert_eq!(system.selected_files().len(), 4);
    assert!(system.toggle_folder("root"));
    assert!(system.selected_files().is_empty());
    assert!(all_flags(&system).iter().all(|(_, flag)| !flag));
}

#[test]
fn cascade_reports_missing_entry_and_goes_on() {
    let mut folder = FolderInfo::new(
        "root".to_string(),
        3,
        vec![
            FileSystemElement::File(file("root/x", 1), true),
            FileSystemElement::File(file("root/y", 1), true),
            FileSystemElement::File(file("root/z", 1), false),
        ],
    );
    let mut list = vec![file("root/y", 1), file("other", 7)];
    let outcome = selected(&mut folder, false, &mut list);
    assert!(outcome.is_err());
    assert_eq!(paths(&list), vec!["other"]);
    let mut seen = vec![];
    flags(&folder, &mut seen);
    assert!(seen.iter().all(|(_, flag)| !flag));
}

#[test]
fn cascade_on_consistent_list_succeeds() {
    let mut folder = deep_tree();
    let mut list = vec![file("elsewhere", 9)];
    assert!(selected(&mut folder, true, &mut list).is_ok());
    assert_eq!(paths(&list), vec!["elsewhere", "root/a", "root/d1/b", "root/d1/d2/c", "root/e"]);
    assert!(selected(&mut folder, true, &mut list).is_ok());
    assert_eq!(list.len(), 5);
    assert!(selected(&mut folder, false, &mut list).is_ok());
    assert_eq!(paths(&list), vec!["elsewhere"]);
}

#[test]
fn file_toggle_reports_missing_entry() {
    let mut folder = FolderInfo::new(
        "root".to_string(),
        1,
        vec![FileSystemElement::File(file("root/x", 1), true)],
    );
    let mut list: Vec<FileInfo> = vec![];
    let wanted = "root/x".to_string();
    assert!(toggle_file(&mut folder, &wanted, &mut list).is_err());
    let mut seen = vec![];
    flags(&folder, &mut seen);
    assert_eq!(seen, vec![("root/x".to_string(), false)]);
    assert!(matches!(toggle_file(&mut folder, &wanted, &mut list), Ok(true)));
    assert_eq!(paths(&list), vec!["root/x"]);
    assert!(matches!(toggle_file(&mut folder, &"none".to_string(), &mut list), Ok(false)));
}

#[test]
fn folder_toggle_finds_first_folder_in_walk_order() {
    let mut folder = deep_tree();
    let mut list: Vec<FileInfo> = vec![];
    assert!(matches!(toggle_folder(&mut folder, &"root/d1/d2".to_string(), &mut list), Ok(true)));
    assert_eq!(paths(&list), vec!["root/d1/d2/c"]);
    assert!(matches!(toggle_folder(&mut folder, &"root".to_string(), &mut list), Ok(false)));
    list.clear();
    assert!(toggle_folder(&mut folder, &"root/d1/d2".to_string(), &mut list).is_err());
}

#[test]
fn position_by_path_finds_first_match() {
    let list = vec![file("a", 1), file("b", 2), file("a", 3)];
    assert_eq!(position_by_path(&list, &"a".to_string()), Some(0));
    assert_eq!(position_by_path(&list, &"b".to_string()), Some(1));
    assert_eq!(position_by_path(&list, &"c".to_string()), None);
}

#[test]
fn collect_files_walks_in_order() {
    let mut all = vec![];
    collect_files(&deep_tree(), false, &mut all);
    assert_eq!(paths(&all), vec!["root/a", "root/d1/b", "root/d1/d2/c", "root/e"]);
    let mut chosen = vec![file("kept", 0)];
    collect_files(&deep_tree(), true, &mut chosen);
    assert_eq!(paths(&chosen), vec!["kept"]);
}

#[test]
fn distinct_paths_are_recognised() {
    assert!(has_distinct_paths(&vec![]));
    assert!(has_distinct_paths(&vec![file("a", 1), file("b", 1)]));
    assert!(!has_distinct_paths(&vec![file("a", 1), file("b", 1), file("a", 2)]));
}

#[test]
fn dir_size_adds_up_all_files() {
    assert_eq!(dir_size(&sample_tree()), Some(15));
    assert_eq!(dir_size(&deep_tree()), Some(10));
    assert_eq!(dir_size(&FolderInfo::new("empty".to_string(), 0, vec![])), Some(0));
}

#[test]
fn dir_size_reports_overflow() {
    let mut root = FolderInfo::new("root".to_string(), 0, vec![]);
    root.push_file(file("root/a", usize::MAX));
    assert_eq!(dir_size(&root), Some(usize::MAX as u64));
    root.push_file(file("root/b", usize::MAX));
    if usize::MAX as u128 * 2 > u64::MAX as u128 {
        assert_eq!(dir_size(&root), None);
    }
}

#[test]
fn file_info_clone_is_equal() {
    let original = file("root/a", 42);
    let copy = original.clone();
    assert_eq!(copy.path, "root/a");
    assert_eq!(copy.size, 42);
}

#[test]
fn update_size_sets_the_sum_of_all_files() {
    let mut root = deep_tree();
    root.size = 0;
    assert!(root.update_size());
    assert_eq!(root.size, 10);
    let mut empty = FolderInfo::new("e".to_string(), 99, vec![]);
    assert!(empty.update_size());
    assert_eq!(empty.size, 0);
}

#[test]
fn update_size_keeps_size_on_overflow() {
    let mut root = FolderInfo::new("root".to_string(), 3, vec![]);
    root.push_file(file("root/a", usize::MAX));
    root.push_file(file("root/b", 1));
    assert!(!root.update_size());
    assert_eq!(root.size, 3);
}

#[test]
fn pushed_nodes_are_not_selected() {
    let root = deep_tree();
    let mut seen = vec![];
    flags(&root, &mut seen);
    assert_eq!(seen.len(), 6);
    assert!(seen.iter().all(|(_, flag)| !flag));
    assert_eq!(root.elements.len(), 3);
}

#[test]
fn default_values_are_empty() {
    let file = FileInfo::default();
    assert_eq!(file.path, "");
    assert_eq!(file.size, 0);
    let folder = FolderInfo::default();
    assert_eq!(folder.path, "");
    assert_eq!(folder.size, 0);
    assert!(folder.elements.is_empty());
    let mut system = FileSystem::default();
    assert!(system.selected_files().is_empty());
    assert!(!system.root_selected());
    assert!(system.toggle_folder(""));
    assert!(system.root_selected());
    assert!(system.selected_files().is_empty());
}
