use frontend::listing::name_le_exec;
use frontend::vfs::{
    find_and_remove_from_parent, Target, Vfs, VfsError, DEFAULT_DIRECTORY_MODE,
    DEFAULT_FILE_MODE, ROOT,
};

fn project() -> Vfs {
    Vfs::new("project".to_string(), 0)
}

fn names(v: &Vfs, ids: &[usize], dirs: bool) -> Vec<String> {
    ids.iter()
        .map(|&i| {
            let t = if dirs { Target::Directory(i) } else { Target::File(i) };
            v.name(t).clone()
        })
        .collect()
}

#[test]
fn new_tree_holds_only_the_root() {
    let v = project();
    assert_eq!(v.dirs.len(), 1);
    assert_eq!(v.files.len(), 0);
    assert_eq!(v.dirs[ROOT].name, "project");
    assert!(v.dirs[ROOT].directories.is_empty());
}

#[test]
fn files_are_listed_by_name_not_insertion() {
    let mut v = project();
    let d = v.create_directory(ROOT, "D".to_string(), DEFAULT_DIRECTORY_MODE);
    v.create_file(d, "b.txt".to_string(), DEFAULT_FILE_MODE, vec![]);
    v.create_file(d, "a.txt".to_string(), DEFAULT_FILE_MODE, vec![]);
    let sorted = v.sorted_files(d);
    assert_eq!(names(&v, &sorted, false), vec!["a.txt", "b.txt"]);
    // storage keeps insertion order
    assert_eq!(names(&v, &v.dirs[d].files, false), vec!["b.txt", "a.txt"]);
}

#[test]
fn directories_sort_independently_of_files() {
    let mut v = project();
    v.create_directory(ROOT, "zeta".to_string(), DEFAULT_DIRECTORY_MODE);
    v.create_directory(ROOT, "Alpha".to_string(), DEFAULT_DIRECTORY_MODE);
    v.create_directory(ROOT, "alpha".to_string(), DEFAULT_DIRECTORY_MODE);
    v.create_file(ROOT, "m".to_string(), DEFAULT_FILE_MODE, vec![]);
    let sorted = v.sorted_directories(ROOT);
    assert_eq!(names(&v, &sorted, true), vec!["Alpha", "alpha", "zeta"]);
    assert_eq!(v.sorted_files(ROOT).len(), 1);
}

#[test]
fn duplicate_names_are_both_listed() {
    let mut v = project();
    let a = v.create_file(ROOT, "same".to_string(), DEFAULT_FILE_MODE, vec![1]);
    let b = v.create_file(ROOT, "same".to_string(), DEFAULT_FILE_MODE, vec![2]);
    assert_ne!(a, b);
    assert_eq!(v.sorted_files(ROOT), vec![a, b]);
    v.set_name(Target::File(a), "same".to_string());
    v.move_to(Target::File(a), ROOT).unwrap();
    assert_eq!(v.sorted_files(ROOT), vec![b, a]);
}

#[test]
fn empty_directory_lists_nothing() {
    let v = project();
    assert!(v.sorted_directories(ROOT).is_empty());
    assert!(v.sorted_files(ROOT).is_empty());
}

#[test]
fn name_order_is_by_code_point() {
    assert!(name_le_exec("a.txt", "b.txt"));
    assert!(!name_le_exec("b.txt", "a.txt"));
    assert!(name_le_exec("", "a"));
    assert!(name_le_exec("ab", "abc"));
    assert!(!name_le_exec("abc", "ab"));
    assert!(name_le_exec("Z", "a"));
    assert!(name_le_exec("same", "same"));
    assert!(name_le_exec("é", "ê"));
}

#[test]
fn move_leaves_entity_in_new_parent_only() {
    let mut v = project();
    let a = v.create_directory(ROOT, "A".to_string(), DEFAULT_DIRECTORY_MODE);
    let b = v.create_directory(ROOT, "B".to_string(), DEFAULT_DIRECTORY_MODE);
    let c = v.create_directory(a, "C".to_string(), DEFAULT_DIRECTORY_MODE);
    let f = v.create_file(c, "f".to_string(), DEFAULT_FILE_MODE, b"x".to_vec());
    assert_eq!(v.move_to(Target::File(f), b), Ok(()));
    assert_eq!(v.dirs[b].files, vec![f]);
    assert!(v.dirs[c].files.is_empty());
    for (i, d) in v.dirs.iter().enumerate() {
        if i != b {
            assert!(!d.files.contains(&f));
        }
    }
    assert_eq!(v.files[f].data, b"x".to_vec());
}

#[test]
fn move_directory_keeps_its_contents() {
    let mut v = project();
    let a = v.create_directory(ROOT, "A".to_string(), DEFAULT_DIRECTORY_MODE);
    let b = v.create_directory(ROOT, "B".to_string(), DEFAULT_DIRECTORY_MODE);
    let f = v.create_file(a, "f".to_string(), DEFAULT_FILE_MODE, vec![]);
    assert_eq!(v.move_to(Target::Directory(a), b), Ok(()));
    assert_eq!(v.dirs[ROOT].directories, vec![b]);
    assert_eq!(v.dirs[b].directories, vec![a]);
    assert_eq!(v.dirs[a].files, vec![f]);
}

#[test]
fn move_into_own_descendant_is_performed() {
    let mut v = project();
    let d1 = v.create_directory(ROOT, "D1".to_string(), DEFAULT_DIRECTORY_MODE);
    let d2 = v.create_directory(d1, "D2".to_string(), DEFAULT_DIRECTORY_MODE);
    assert_eq!(v.move_to(Target::Directory(d1), d2), Ok(()));
    assert!(v.dirs[ROOT].directories.is_empty());
    assert_eq!(v.dirs[d2].directories, vec![d1]);
    assert_eq!(v.dirs[d1].directories, vec![d2]);
    // the pair now sits outside the tree: a further move of D2 finds no parent
    assert_eq!(v.move_to(Target::Directory(d2), ROOT), Err(VfsError::NotFound));
}

#[test]
fn move_of_root_or_unknown_entity_is_not_found() {
    let mut v = project();
    let a = v.create_directory(ROOT, "A".to_string(), DEFAULT_DIRECTORY_MODE);
    assert_eq!(v.move_to(Target::Directory(ROOT), a), Err(VfsError::NotFound));
    assert_eq!(v.move_to(Target::File(7), a), Err(VfsError::NotFound));
    assert_eq!(v.dirs[ROOT].directories, vec![a]);
}

#[test]
fn move_within_same_parent_appends_at_end() {
    let mut v = project();
    let f = v.create_file(ROOT, "f".to_string(), DEFAULT_FILE_MODE, vec![]);
    let g = v.create_file(ROOT, "g".to_string(), DEFAULT_FILE_MODE, vec![]);
    assert_eq!(v.move_to(Target::File(f), ROOT), Ok(()));
    assert_eq!(v.dirs[ROOT].files, vec![g, f]);
}

#[test]
fn find_and_remove_searches_below_root() {
    let mut v = project();
    let a = v.create_directory(ROOT, "A".to_string(), DEFAULT_DIRECTORY_MODE);
    let b = v.create_directory(a, "B".to_string(), DEFAULT_DIRECTORY_MODE);
    let f = v.create_file(b, "f".to_string(), DEFAULT_FILE_MODE, vec![]);
    assert!(find_and_remove_from_parent(&Target::File(f), ROOT, &mut v));
    assert!(v.dirs[b].files.is_empty());
    assert!(!find_and_remove_from_parent(&Target::File(f), ROOT, &mut v));
}

#[test]
fn find_and_remove_from_subtree_misses_outside_it() {
    let mut v = project();
    let a = v.create_directory(ROOT, "A".to_string(), DEFAULT_DIRECTORY_MODE);
    let b = v.create_directory(ROOT, "B".to_string(), DEFAULT_DIRECTORY_MODE);
    let f = v.create_file(b, "f".to_string(), DEFAULT_FILE_MODE, vec![]);
    assert!(!find_and_remove_from_parent(&Target::File(f), a, &mut v));
    assert_eq!(v.dirs[b].files, vec![f]);
}

#[test]
fn remove_and_insert_by_identity() {
    let mut v = project();
    let a = v.create_directory(ROOT, "A".to_string(), DEFAULT_DIRECTORY_MODE);
    let f = v.create_file(ROOT, "f".to_string(), DEFAULT_FILE_MODE, vec![]);
    assert_eq!(v.remove(a, Target::File(f)), Err(VfsError::NotFound));
    assert_eq!(v.remove(ROOT, Target::File(f)), Ok(()));
    assert!(v.dirs[ROOT].files.is_empty());
    assert!(!v.is_held(Target::File(f)));
    assert_eq!(v.insert(a, Target::File(f)), Ok(()));
    assert_eq!(v.dirs[a].files, vec![f]);
    assert_eq!(v.insert(ROOT, Target::File(f)), Err(VfsError::AlreadyPlaced));
    assert_eq!(v.insert(ROOT, Target::Directory(ROOT)), Err(VfsError::NotFound));
    assert_eq!(v.insert(ROOT, Target::File(99)), Err(VfsError::NotFound));
}

#[test]
fn rename_keeps_identity() {
    let mut v = project();
    let f = v.create_file(ROOT, "old".to_string(), DEFAULT_FILE_MODE, vec![]);
    v.set_name(Target::File(f), "new".to_string());
    assert_eq!(v.name(Target::File(f)), "new");
    assert_eq!(v.dirs[ROOT].files, vec![f]);
    v.set_name(Target::File(f), String::new());
    assert_eq!(v.name(Target::File(f)), "");
}

#[test]
fn created_entities_carry_mode_and_data() {
    let mut v = project();
    let d = v.create_directory(ROOT, "d".to_string(), DEFAULT_DIRECTORY_MODE);
    let f = v.create_file(d, "f".to_string(), DEFAULT_FILE_MODE, vec![1, 2]);
    assert_eq!(v.dirs[d].mode, 0o775);
    assert_eq!(v.files[f].mode, 0o664);
    assert_eq!(v.files[f].data, vec![1, 2]);
}
