//! The context menus: the one opened on a row of the explorer, whose offer
//! depends on the kind of its target, and the one opened on a tab.
use vstd::prelude::*;
use vstd::string::*;
use crate::activity_panel::Activity;
use crate::interaction::Interaction;
use crate::vfs::{Target, Vfs, VfsView, DEFAULT_DIRECTORY_MODE, DEFAULT_FILE_MODE};
use crate::workspace::{fresh_panel_id, Workspace, WorkspaceError};

verus! {

/// An entry of the explorer's context menu.
#[derive(Clone, Copy, PartialEq, Eq, Structural, Debug)]
pub enum MenuOption {
    NewFolder,
    NewFile,
    Rename,
}

/// A context menu opened at `position` on the row of `target`.
#[derive(Clone, Copy, Debug)]
pub struct ContextMenu {
    pub position: (i32, i32),
    pub target: Target,
}

/// The entries offered for `target`, in display order.
pub open spec fn options_for(target: Target) -> Seq<MenuOption> {
    match target {
        Target::Directory(_) => seq![MenuOption::NewFolder, MenuOption::NewFile, MenuOption::Rename],
        Target::File(_) => seq![MenuOption::Rename],
    }
}

/// The name that a new entity has until the user types one.
pub open spec fn placeholder() -> Seq<char> {
    "Placeholder"@
}

/// The tree after a new empty directory named with the placeholder word was
/// appended to the directory `target`.
pub open spec fn with_new_folder(v: VfsView, target: Target) -> VfsView {
    v.with_new_dir(placeholder(), DEFAULT_DIRECTORY_MODE).attach(
        target->Directory_0 as int,
        Target::Directory(v.dirs.len() as usize),
    )
}

/// The tree after a new file named and filled with the placeholder word was
/// appended to the directory `target`.
pub open spec fn with_new_placeholder_file(v: VfsView, target: Target) -> VfsView {
    v.with_new_file(placeholder(), DEFAULT_FILE_MODE, "Placeholder".spec_bytes()).attach(
        target->Directory_0 as int,
        Target::File(v.files.len() as usize),
    )
}

/// The directory target of a menu action, where it names a directory of the
/// arenas.
pub open spec fn directory_target(v: VfsView, target: Target) -> bool {
    target is Directory && v.valid(target)
}

impl ContextMenu {
    pub fn new(position: (i32, i32), target: Target) -> (r: ContextMenu)
        ensures
            r.position == position,
            r.target == target,
    {
        ContextMenu { position, target }
    }

    /// What the menu offers: New Folder, New File and Rename on a directory,
    /// Rename on a file.
    pub fn options(&self) -> (r: Vec<MenuOption>)
        ensures
            r@ == options_for(self.target),
    {
        match self.target {
            Target::Directory(_) => {
                let r = vec![MenuOption::NewFolder, MenuOption::NewFile, MenuOption::Rename];
                assert(r@ =~= options_for(self.target));
                r
            },
            Target::File(_) => {
                let r = vec![MenuOption::Rename];
                assert(r@ =~= options_for(self.target));
                r
            },
        }
    }

    /// New Folder: an empty directory named "Placeholder" is appended to the
    /// target directory and its rename starts at once. On a file, or on a
    /// target that is not in the arenas, nothing happens.
    pub fn add_folder(&self, vfs: &mut Vfs, interaction: &mut Interaction) -> (r: Option<usize>)
        requires
            old(vfs)@.wf(),
        ensures
            final(vfs)@.wf(),
            r is Some <==> directory_target(old(vfs)@, self.target),
            r is Some ==> r == Some(old(vfs)@.dirs.len() as usize),
            r is Some ==> final(vfs)@ == with_new_folder(old(vfs)@, self.target),
            r is Some ==> final(interaction).rename == Some(Target::Directory(r->0)),
            r is None ==> final(vfs)@ == old(vfs)@,
            r is None ==> final(interaction).rename == old(interaction).rename,
            final(interaction).dragged == old(interaction).dragged,
    {
        match self.target {
            Target::Directory(d) => {
                if d >= vfs.dirs.len() {
                    return None;
                }
                proof {
                    reveal_strlit("Placeholder");
                }
                let name = String::from_str("Placeholder");
                let id = vfs.create_directory(d, name, DEFAULT_DIRECTORY_MODE);
                interaction.start_rename(Target::Directory(id));
                Some(id)
            },
            Target::File(_) => None,
        }
    }

    /// New File: a file named "Placeholder", holding that word, is appended
    /// to the target directory and its rename starts at once. On a file, or
    /// on a target that is not in the arenas, nothing happens.
    pub fn add_file(&self, vfs: &mut Vfs, interaction: &mut Interaction) -> (r: Option<usize>)
        requires
            old(vfs)@.wf(),
        ensures
            final(vfs)@.wf(),
            r is Some <==> directory_target(old(vfs)@, self.target),
            r is Some ==> r == Some(old(vfs)@.files.len() as usize),
            r is Some ==> final(vfs)@ == with_new_placeholder_file(old(vfs)@, self.target),
            r is Some ==> final(interaction).rename == Some(Target::File(r->0)),
            r is None ==> final(vfs)@ == old(vfs)@,
            r is None ==> final(interaction).rename == old(interaction).rename,
            final(interaction).dragged == old(interaction).dragged,
    {
        match self.target {
            Target::Directory(d) => {
                if d >= vfs.dirs.len() {
                    return None;
                }
                proof {
                    reveal_strlit("Placeholder");
                }
                let name = String::from_str("Placeholder");
                let data = "Placeholder".as_bytes_vec();
                let id = vfs.create_file(d, name, DEFAULT_FILE_MODE, data);
                interaction.start_rename(Target::File(id));
                Some(id)
            },
            Target::File(_) => None,
        }
    }

    /// Rename: the target becomes the entity being renamed, replacing any
    /// rename in progress. Where the target is not in the arenas nothing
    /// happens.
    pub fn rename(&self, vfs: &Vfs, interaction: &mut Interaction) -> (r: bool)
        ensures
            r == vfs@.valid(self.target),
            final(interaction).rename == (if r {
                Some(self.target)
            } else {
                old(interaction).rename
            }),
            final(interaction).dragged == old(interaction).dragged,
    {
        if vfs.is_valid(self.target) {
            interaction.start_rename(self.target);
            true
        } else {
            false
        }
    }

    /// Carries out the entry `option`. An entry that the menu does not offer
    /// for its target does nothing; the result tells whether anything was
    /// done.
    pub fn select(&self, option: MenuOption, vfs: &mut Vfs, interaction: &mut Interaction) -> (r:
        bool)
        requires
            old(vfs)@.wf(),
        ensures
            final(vfs)@.wf(),
            r == (options_for(self.target).contains(option) && old(vfs)@.valid(self.target)),
            !r ==> final(vfs)@ == old(vfs)@ && *final(interaction) == *old(interaction),
            option == MenuOption::Rename ==> final(vfs)@ == old(vfs)@,
            r && option == MenuOption::Rename ==> final(interaction).rename == Some(self.target),
            r && option == MenuOption::NewFolder ==> final(vfs)@ == with_new_folder(
                old(vfs)@,
                self.target,
            ) && final(interaction).rename == Some(Target::Directory(old(vfs)@.dirs.len() as usize)),
            r && option == MenuOption::NewFile ==> final(vfs)@ == with_new_placeholder_file(
                old(vfs)@,
                self.target,
            ) && final(interaction).rename == Some(Target::File(old(vfs)@.files.len() as usize)),
            final(interaction).dragged == old(interaction).dragged,
    {
        proof {
            let offered = options_for(self.target);
            if self.target is Directory {
                assert(offered[0] == MenuOption::NewFolder);
                assert(offered[1] == MenuOption::NewFile);
                assert(offered[2] == MenuOption::Rename);
            } else {
                assert(offered[0] == MenuOption::Rename);
            }
        }
        match option {
            MenuOption::NewFolder => self.add_folder(vfs, interaction).is_some(),
            MenuOption::NewFile => self.add_file(vfs, interaction).is_some(),
            MenuOption::Rename => self.rename(vfs, interaction),
        }
    }
}

/// A context menu opened on a tab at `position`.
#[derive(Clone, Copy, Debug)]
pub struct TabMenu {
    pub position: (i32, i32),
}

impl TabMenu {
    pub fn new(position: (i32, i32)) -> (r: TabMenu)
        ensures
            r.position == position,
    {
        TabMenu { position }
    }

    /// Split Right: the last active panel is split under a fresh random key,
    /// with `activity` in the new panel, which becomes the last active.
    /// Where no panel has the last active key nothing changes.
    pub fn split_panel(workspace: &mut Workspace, activity: &Activity) -> (r: Result<
        (),
        WorkspaceError,
    >)
        requires
            old(workspace)@.wf(),
        ensures
            final(workspace)@.wf(),
            r is Ok <==> old(workspace)@.has_panel(old(workspace)@.last_active_panel),
            r is Ok ==> final(workspace)@ == old(workspace)@.after_split(
                old(workspace)@.panel_index(old(workspace)@.last_active_panel),
                *activity,
                final(workspace)@.last_active_panel,
            ),
            r is Err ==> final(workspace)@ == old(workspace)@,
    {
        let id = fresh_panel_id();
        workspace.split_panel_with_id(activity, id)
    }
}

} // verus!
