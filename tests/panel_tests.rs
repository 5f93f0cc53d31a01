use frontend::activity_panel::{Activity, ActivityPanel, ActivityPanelCommand, Editor, Welcome};
use frontend::contextmenu::TabMenu;
use frontend::workspace::{
    activity_panel_height, console_height_after, grid_template, workspace_width, ColumnType,
    GridPanel, Workspace, WorkspaceCommand, WorkspaceError, DEFAULT_CONSOLE_HEIGHT,
};

fn editor(f: usize) -> Activity {
    Activity::Editor(Editor::new(f))
}

fn panel_at(w: &Workspace, i: usize) -> &ActivityPanel {
    match &w.activity_panel_list[i].1 {
        GridPanel::Panel(p) => p,
        GridPanel::Resizer => panic!("entry {i} is a resizer"),
    }
}

#[test]
fn repeated_open_keeps_one_editor() {
    let mut p = ActivityPanel::default();
    for _ in 0..4 {
        p.open_file(7);
    }
    let count = p.activities.iter().filter(|a| **a == editor(7)).count();
    assert_eq!(count, 1);
    assert_eq!(p.activities.len(), 2);
    assert_eq!(p.active_activity, Some(editor(7)));
}

#[test]
fn open_existing_editor_only_selects_it() {
    let mut p = ActivityPanel::default();
    p.open_file(1);
    p.open_file(2);
    p.open_file(1);
    assert_eq!(
        p.activities,
        vec![Activity::Welcome(Welcome::new()), editor(1), editor(2)]
    );
    assert_eq!(p.active_activity, Some(editor(1)));
    p.handle(ActivityPanelCommand::OpenFile(3));
    assert_eq!(p.activities.len(), 4);
    assert_eq!(p.active_activity, Some(editor(3)));
}

#[test]
fn closing_active_of_two_selects_the_other() {
    let mut p = ActivityPanel::new(&editor(1));
    p.open_file(2);
    p.close_activity(editor(2));
    assert_eq!(p.activities, vec![editor(1)]);
    assert_eq!(p.active_activity, Some(editor(1)));

    let mut q = ActivityPanel::new(&editor(1));
    q.open_file(2);
    q.select(editor(1));
    q.close_activity(editor(1));
    assert_eq!(q.activities, vec![editor(2)]);
    assert_eq!(q.active_activity, Some(editor(2)));
}

#[test]
fn closing_active_picks_first_remaining() {
    let mut p = ActivityPanel::default();
    p.open_file(1);
    p.open_file(2);
    p.close_activity(editor(2));
    assert_eq!(p.active_activity, Some(Activity::Welcome(Welcome::new())));
}

#[test]
fn closing_inactive_tab_keeps_active() {
    let mut p = ActivityPanel::default();
    p.open_file(1);
    p.open_file(2);
    p.close_activity(editor(1));
    assert_eq!(p.active_activity, Some(editor(2)));
    assert_eq!(p.activity_count(), 2);
}

#[test]
fn closing_last_tab_leaves_nothing_active() {
    let mut p = ActivityPanel::new(&editor(4));
    p.close_activity(editor(4));
    assert!(p.activities.is_empty());
    assert_eq!(p.active_activity, None);
    p.close_activity(editor(4));
    assert_eq!(p.active_activity, None);
    p.open_file(4);
    assert_eq!(p.active_activity, Some(editor(4)));
}

#[test]
fn selecting_a_missing_tab_changes_nothing() {
    let mut p = ActivityPanel::default();
    p.select(editor(9));
    assert_eq!(p.active_activity, Some(Activity::Welcome(Welcome::new())));
    assert!(editor(9).closable());
    assert!(!Activity::Welcome(Welcome::new()).closable());
    assert!(editor(9).edits(9));
    assert!(!editor(9).edits(8));
}

#[test]
fn split_inserts_resizer_and_panel_after_source() {
    let mut w = Workspace::new(1);
    assert_eq!(w.split_panel_with_id(&editor(5), 2), Ok(()));
    let keys: Vec<u128> = w.activity_panel_list.iter().map(|e| e.0).collect();
    assert_eq!(keys, vec![1, 2, 2]);
    assert!(matches!(w.activity_panel_list[1].1, GridPanel::Resizer));
    assert_eq!(panel_at(&w, 2).activities, vec![editor(5)]);
    assert_eq!(panel_at(&w, 2).active_activity, Some(editor(5)));
    assert_eq!(w.last_active_panel, 2);
    assert_eq!(w.cols, vec![ColumnType::Fr, ColumnType::Auto, ColumnType::Fr]);

    // the key of the new panel is shared with its resizer; the panel is found
    w.last_active_panel = 1;
    assert_eq!(w.split_panel_with_id(&editor(6), 3), Ok(()));
    let keys: Vec<u128> = w.activity_panel_list.iter().map(|e| e.0).collect();
    assert_eq!(keys, vec![1, 3, 3, 2, 2]);
    assert_eq!(w.find_panel(2), Some(4));
}

#[test]
fn split_without_active_panel_changes_nothing() {
    let mut w = Workspace::new(1);
    w.last_active_panel = 99;
    assert_eq!(w.split_panel_with_id(&editor(5), 2), Err(WorkspaceError::NotFound));
    assert_eq!(w.activity_panel_list.len(), 1);
    assert_eq!(w.cols, vec![ColumnType::Fr]);
}

#[test]
fn split_from_tab_menu_uses_a_fresh_key() {
    let mut w = Workspace::default();
    let first = w.last_active_panel;
    assert_eq!(TabMenu::split_panel(&mut w, &editor(1)), Ok(()));
    assert_eq!(w.activity_panel_list.len(), 3);
    assert_eq!(w.activity_panel_list[0].0, first);
    assert_eq!(w.activity_panel_list[2].0, w.last_active_panel);
    assert_eq!(panel_at(&w, 2).activities, vec![editor(1)]);
}

#[test]
fn open_file_command_goes_to_addressed_or_last_active_panel() {
    let mut w = Workspace::new(1);
    w.split_panel_with_id(&editor(5), 2).unwrap();
    assert!(w.handle(WorkspaceCommand::OpenFile(None, 8)));
    assert_eq!(panel_at(&w, 2).active_activity, Some(editor(8)));
    assert_eq!(panel_at(&w, 0).activities.len(), 1);
    assert!(w.handle(WorkspaceCommand::OpenFile(Some(1), 9)));
    assert_eq!(panel_at(&w, 0).active_activity, Some(editor(9)));
    assert!(!w.handle(WorkspaceCommand::OpenFile(Some(77), 9)));
    assert_eq!(panel_at(&w, 0).activities.len(), 2);
}

#[test]
fn workspace_starts_with_welcome_panel() {
    let w = Workspace::new(5);
    assert_eq!(w.console_height, DEFAULT_CONSOLE_HEIGHT);
    assert_eq!(w.console_height, 200);
    assert!(!w.resize_active);
    assert_eq!(w.last_active_panel, 5);
    assert_eq!(
        panel_at(&w, 0).active_activity,
        Some(Activity::Welcome(Welcome::new()))
    );
}

#[test]
fn resize_bands() {
    // window 1000 high, resizer 3 px: the console asks for 1000 - y - 3
    assert_eq!(console_height_after(1000, 922, 200), 0);
    assert_eq!(console_height_after(1000, 923, 200), 0);
    assert_eq!(console_height_after(1000, 921, 200), 200);
    assert_eq!(console_height_after(1000, 847, 200), 200);
    assert_eq!(console_height_after(1000, 846, 200), 151);
    assert_eq!(console_height_after(1000, 500, 200), 497);
    assert_eq!(console_height_after(1000, 2000, 200), 0);
    assert_eq!(console_height_after(1000, -50, 200), 997);
    assert_eq!(console_height_after(0, 0, 200), 0);
}

#[test]
fn resize_follows_pointer_only_while_active() {
    let mut w = Workspace::new(1);
    w.pointer_move(1000, 500);
    assert_eq!(w.console_height, 200);
    w.pointer_down();
    w.pointer_move(1000, 500);
    assert_eq!(w.console_height, 497);
    w.pointer_move(1000, 900);
    assert_eq!(w.console_height, 497);
    w.pointer_move(1000, 990);
    assert_eq!(w.console_height, 0);
    w.pointer_up();
    assert!(!w.resize_active);
    assert_eq!(w.console_height, DEFAULT_CONSOLE_HEIGHT);
    w.set_resizer_hover(true);
    assert!(w.resizer_hover);
}

#[test]
fn release_keeps_nonzero_height() {
    let mut w = Workspace::new(1);
    w.pointer_down();
    w.pointer_move(800, 300);
    w.pointer_up();
    assert_eq!(w.console_height, 497);
}

#[test]
fn heights_and_widths_never_go_negative() {
    assert_eq!(activity_panel_height(1000, 200), 797);
    assert_eq!(activity_panel_height(100, 200), 0);
    assert_eq!(activity_panel_height(203, 200), 0);
    assert_eq!(activity_panel_height(u32::MAX, u32::MAX), 0);
    assert_eq!(workspace_width(1200, 300), 900);
    assert_eq!(workspace_width(200, 300), 0);
}

#[test]
fn grid_template_joins_tokens() {
    assert_eq!(grid_template(&vec![]), "");
    assert_eq!(grid_template(&vec![ColumnType::Fr]), "1fr");
    assert_eq!(
        grid_template(&vec![ColumnType::Auto, ColumnType::Auto, ColumnType::Auto, ColumnType::Fr]),
        "auto auto auto 1fr"
    );
}
