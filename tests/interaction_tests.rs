use frontend::contextmenu::{ContextMenu, MenuOption, TabMenu};
use frontend::explorer::{Explorer, Row, Search};
use frontend::interaction::{DropError, Interaction};
use frontend::vfs::{Target, Vfs, DEFAULT_DIRECTORY_MODE, DEFAULT_FILE_MODE, ROOT};
use frontend::workspace::WorkspaceCommand;

fn tree() -> (Vfs, usize, usize) {
    let mut v = Vfs::new("project".to_string(), 0);
    let d = v.create_directory(ROOT, "src".to_string(), DEFAULT_DIRECTORY_MODE);
    let f = v.create_file(d, "main.rs".to_string(), DEFAULT_FILE_MODE, vec![]);
    (v, d, f)
}

#[test]
fn rename_file_from_context_menu() {
    let (mut v, _d, f) = tree();
    let mut ui = Interaction::new();
    let mut explorer = Explorer::default();
    explorer.open_context_menu((10, 20), Target::File(f));
    let menu = explorer.context_menu.unwrap();
    assert_eq!(menu.options(), vec![MenuOption::Rename]);
    assert!(menu.select(MenuOption::Rename, &mut v, &mut ui));
    assert_eq!(ui.rename, Some(Target::File(f)));
    assert!(ui.input(&mut v, "x".to_string()));
    ui.end_rename();
    assert_eq!(v.name(Target::File(f)), "x");
    assert_eq!(ui.rename, None);
}

#[test]
fn directory_menu_offers_three_entries() {
    let menu = ContextMenu::new((0, 0), Target::Directory(ROOT));
    assert_eq!(
        menu.options(),
        vec![MenuOption::NewFolder, MenuOption::NewFile, MenuOption::Rename]
    );
    assert_eq!(menu.position, (0, 0));
}

#[test]
fn new_folder_is_placed_and_renamed() {
    let (mut v, d, _f) = tree();
    let mut ui = Interaction::new();
    let menu = ContextMenu::new((1, 2), Target::Directory(d));
    let id = menu.add_folder(&mut v, &mut ui).unwrap();
    assert_eq!(v.dirs[d].directories, vec![id]);
    assert_eq!(v.dirs[id].name, "Placeholder");
    assert_eq!(v.dirs[id].mode, DEFAULT_DIRECTORY_MODE);
    assert_eq!(ui.rename, Some(Target::Directory(id)));
}

#[test]
fn new_file_is_placed_and_renamed() {
    let (mut v, d, f) = tree();
    let mut ui = Interaction::new();
    let menu = ContextMenu::new((1, 2), Target::Directory(d));
    assert!(menu.select(MenuOption::NewFile, &mut v, &mut ui));
    let id = v.files.len() - 1;
    assert_eq!(v.dirs[d].files, vec![f, id]);
    assert_eq!(v.files[id].name, "Placeholder");
    assert_eq!(v.files[id].data, b"Placeholder".to_vec());
    assert_eq!(v.files[id].mode, DEFAULT_FILE_MODE);
    assert_eq!(ui.rename, Some(Target::File(id)));
}

#[test]
fn folder_actions_on_a_file_do_nothing() {
    let (mut v, _d, f) = tree();
    let mut ui = Interaction::new();
    let menu = ContextMenu::new((1, 2), Target::File(f));
    assert_eq!(menu.add_folder(&mut v, &mut ui), None);
    assert_eq!(menu.add_file(&mut v, &mut ui), None);
    assert!(!menu.select(MenuOption::NewFolder, &mut v, &mut ui));
    assert_eq!(v.dirs.len(), 2);
    assert_eq!(v.files.len(), 1);
    assert_eq!(ui.rename, None);
}

#[test]
fn actions_on_a_stale_target_do_nothing() {
    let (mut v, _d, _f) = tree();
    let mut ui = Interaction::new();
    let menu = ContextMenu::new((1, 2), Target::Directory(40));
    assert_eq!(menu.add_folder(&mut v, &mut ui), None);
    assert!(!menu.rename(&v, &mut ui));
    assert_eq!(ui.rename, None);
    assert_eq!(v.dirs.len(), 2);
}

#[test]
fn second_rename_replaces_the_first() {
    let (_v, d, f) = tree();
    let mut ui = Interaction::new();
    ui.start_rename(Target::File(f));
    ui.start_rename(Target::Directory(d));
    assert_eq!(ui.rename, Some(Target::Directory(d)));
}

#[test]
fn enter_ends_rename_other_keys_do_not() {
    let (_v, _d, f) = tree();
    let mut ui = Interaction::new();
    ui.start_rename(Target::File(f));
    ui.key_down("a");
    assert_eq!(ui.rename, Some(Target::File(f)));
    ui.key_down("Enterx");
    assert_eq!(ui.rename, Some(Target::File(f)));
    ui.key_down("Enter");
    assert_eq!(ui.rename, None);
}

#[test]
fn typing_without_rename_changes_nothing() {
    let (mut v, _d, f) = tree();
    let ui = Interaction::new();
    assert!(!ui.input(&mut v, "y".to_string()));
    assert_eq!(v.name(Target::File(f)), "main.rs");
}

#[test]
fn each_keystroke_writes_through() {
    let (mut v, d, _f) = tree();
    let mut ui = Interaction::new();
    ui.start_rename(Target::Directory(d));
    ui.input(&mut v, "l".to_string());
    assert_eq!(v.name(Target::Directory(d)), "l");
    ui.input(&mut v, "li".to_string());
    assert_eq!(v.name(Target::Directory(d)), "li");
    ui.input(&mut v, String::new());
    assert_eq!(v.name(Target::Directory(d)), "");
}

#[test]
fn clicks_are_suppressed_during_rename_or_drag() {
    let (_v, d, f) = tree();
    let mut ui = Interaction::new();
    let mut explorer = Explorer::default();
    assert!(ui.click_allowed(true));
    assert!(!ui.click_allowed(false));
    ui.drag_start(Target::File(f));
    assert!(!explorer.press_directory(&ui, d, true));
    assert!(explorer.is_expanded(d));
    assert_eq!(explorer.press_file(&ui, f, true), None);
    ui.drag_end();
    ui.start_rename(Target::File(f));
    assert_eq!(explorer.press_file(&ui, f, true), None);
    ui.end_rename();
    assert_eq!(
        explorer.press_file(&ui, f, true),
        Some(WorkspaceCommand::OpenFile(None, f))
    );
    assert_eq!(explorer.press_file(&ui, f, false), None);
}

#[test]
fn directory_press_toggles_expansion() {
    let (_v, d, _f) = tree();
    let ui = Interaction::new();
    let mut explorer = Explorer::default();
    assert!(explorer.is_expanded(d));
    assert!(explorer.press_directory(&ui, d, true));
    assert!(!explorer.is_expanded(d));
    assert!(explorer.is_expanded(ROOT));
    assert!(explorer.press_directory(&ui, d, true));
    assert!(explorer.is_expanded(d));
}

#[test]
fn drop_moves_dragged_entity() {
    let (mut v, d, f) = tree();
    let mut ui = Interaction::new();
    assert_eq!(ui.drop_on(&mut v, ROOT), Err(DropError::NoTarget));
    ui.drag_start(Target::File(f));
    assert_eq!(ui.drop_on(&mut v, ROOT), Ok(()));
    ui.drag_end();
    assert_eq!(ui.dragged, None);
    assert!(v.dirs[d].files.is_empty());
    assert_eq!(v.dirs[ROOT].files, vec![f]);
}

#[test]
fn drop_on_own_descendant_moves_anyway() {
    let mut v = Vfs::new("project".to_string(), 0);
    let d1 = v.create_directory(ROOT, "D1".to_string(), DEFAULT_DIRECTORY_MODE);
    let d2 = v.create_directory(d1, "D2".to_string(), DEFAULT_DIRECTORY_MODE);
    let mut ui = Interaction::new();
    ui.drag_start(Target::Directory(d1));
    assert_eq!(ui.drop_on(&mut v, d2), Ok(()));
    assert_eq!(v.dirs[d2].directories, vec![d1]);
    assert!(v.dirs[ROOT].directories.is_empty());
}

#[test]
fn drop_of_entity_outside_tree_is_not_found() {
    let mut v = Vfs::new("project".to_string(), 0);
    let f = v.create_file(ROOT, "f".to_string(), DEFAULT_FILE_MODE, vec![]);
    v.remove(ROOT, Target::File(f)).unwrap();
    let mut ui = Interaction::new();
    ui.drag_start(Target::File(f));
    assert_eq!(ui.drop_on(&mut v, ROOT), Err(DropError::NotFound));
    assert!(v.dirs[ROOT].files.is_empty());
}

#[test]
fn context_menu_is_replaced_and_dismissed() {
    let (_v, d, f) = tree();
    let mut explorer = Explorer::default();
    explorer.open_context_menu((1, 1), Target::File(f));
    explorer.open_context_menu((5, 6), Target::Directory(d));
    let menu = explorer.context_menu.unwrap();
    assert_eq!(menu.position, (5, 6));
    assert_eq!(menu.target, Target::Directory(d));
    explorer.dismiss_context_menu();
    assert!(explorer.context_menu.is_none());
}

#[test]
fn tooltips_name_the_side_bars() {
    assert_eq!(Explorer::default().tooltip(), "Explorer");
    assert_eq!(Search {}.tooltip(), "Search");
    assert_eq!(TabMenu::new((3, 4)).position, (3, 4));
}

#[test]
fn visible_rows_nest_sorted_contents() {
    let mut v = Vfs::new("project".to_string(), 0);
    let b = v.create_directory(ROOT, "b".to_string(), DEFAULT_DIRECTORY_MODE);
    let a = v.create_directory(ROOT, "a".to_string(), DEFAULT_DIRECTORY_MODE);
    let f = v.create_file(ROOT, "z.txt".to_string(), DEFAULT_FILE_MODE, vec![]);
    let g = v.create_file(a, "in_a".to_string(), DEFAULT_FILE_MODE, vec![]);
    let c = v.create_directory(a, "c".to_string(), DEFAULT_DIRECTORY_MODE);
    let row = |target, depth| Row { target, depth };
    let mut explorer = Explorer::default();
    assert_eq!(
        explorer.visible_rows(&v),
        vec![
            row(Target::Directory(ROOT), 0),
            row(Target::Directory(a), 1),
            row(Target::Directory(c), 2),
            row(Target::File(g), 2),
            row(Target::Directory(b), 1),
            row(Target::File(f), 1),
        ]
    );
    explorer.toggle(a);
    assert_eq!(
        explorer.visible_rows(&v),
        vec![
            row(Target::Directory(ROOT), 0),
            row(Target::Directory(a), 1),
            row(Target::Directory(b), 1),
            row(Target::File(f), 1),
        ]
    );
    explorer.toggle(ROOT);
    assert_eq!(explorer.visible_rows(&v), vec![row(Target::Directory(ROOT), 0)]);
}

#[test]
fn visible_rows_skip_what_left_the_tree() {
    let mut v = Vfs::new("project".to_string(), 0);
    let d1 = v.create_directory(ROOT, "D1".to_string(), DEFAULT_DIRECTORY_MODE);
    let d2 = v.create_directory(d1, "D2".to_string(), DEFAULT_DIRECTORY_MODE);
    v.move_to(Target::Directory(d1), d2).unwrap();
    let explorer = Explorer::default();
    assert_eq!(
        explorer.visible_rows(&v),
        vec![Row { target: Target::Directory(ROOT), depth: 0 }]
    );
}
