//! What the user is acting on right now: the entity being renamed and the
//! entity being dragged. One store is handed to every part of the explorer,
//! so each cell holds at most one target for the whole interface.
use vstd::prelude::*;
use vstd::string::*;
use crate::vfs::{Target, Vfs};

verus! {

/// Why a drop moved nothing.
#[derive(Clone, Copy, PartialEq, Eq, Structural, Debug)]
pub enum DropError {
    /// No drag is in progress.
    NoTarget,
    /// The dragged entity is no longer held by a directory of the tree.
    NotFound,
}

pub struct Interaction {
    /// The entity whose name is being edited in place.
    pub rename: Option<Target>,
    /// The entity being dragged.
    pub dragged: Option<Target>,
}

/// The name of the key that ends an edit.
pub open spec fn is_enter(key: Seq<char>) -> bool {
    key == "Enter"@
}

impl Interaction {
    /// No rename and no drag in progress.
    pub fn new() -> (r: Interaction)
        ensures
            r.rename is None,
            r.dragged is None,
    {
        Interaction { rename: None, dragged: None }
    }

    /// Starts editing the name of `t`. A rename already in progress is
    /// replaced, never merged.
    pub fn start_rename(&mut self, t: Target)
        ensures
            final(self).rename == Some(t),
            final(self).dragged == old(self).dragged,
    {
        self.rename = Some(t);
    }

    /// Ends the edit, as the input losing focus does.
    pub fn end_rename(&mut self)
        ensures
            final(self).rename is None,
            final(self).dragged == old(self).dragged,
    {
        self.rename = None;
    }

    /// A key pressed in the name input: Enter ends the edit, any other key
    /// leaves it running.
    pub fn key_down(&mut self, key: &str)
        ensures
            final(self).rename == (if is_enter(key@) {
                None
            } else {
                old(self).rename
            }),
            final(self).dragged == old(self).dragged,
    {
        if is_enter_key(key) {
            self.rename = None;
        }
    }

    /// The text of the name input changed: the entity being renamed takes it
    /// as its name at once. Without a rename in progress, or where the target
    /// is not in the arenas, nothing changes and the result is false.
    pub fn input(&self, vfs: &mut Vfs, text: String) -> (r: bool)
        requires
            old(vfs)@.wf(),
        ensures
            final(vfs)@.wf(),
            r == (self.rename is Some && old(vfs)@.valid(self.rename->0)),
            r ==> final(vfs)@ == old(vfs)@.renamed(self.rename->0, text@),
            !r ==> final(vfs)@ == old(vfs)@,
    {
        match self.rename {
            Some(t) => {
                if vfs.is_valid(t) {
                    vfs.set_name(t, text);
                    true
                } else {
                    false
                }
            },
            None => false,
        }
    }

    /// A drag begins on the row of `t`.
    pub fn drag_start(&mut self, t: Target)
        ensures
            final(self).dragged == Some(t),
            final(self).rename == old(self).rename,
    {
        self.dragged = Some(t);
    }

    /// A drag ends, dropped or not.
    pub fn drag_end(&mut self)
        ensures
            final(self).dragged is None,
            final(self).rename == old(self).rename,
    {
        self.dragged = None;
    }

    /// A pointer press on a row acts (expands a directory, opens a file) only
    /// for the left button and while neither a rename nor a drag is running.
    pub fn click_allowed(&self, left_button: bool) -> (r: bool)
        ensures
            r == (left_button && self.rename is None && self.dragged is None),
    {
        left_button && self.rename.is_none() && self.dragged.is_none()
    }

    /// The dragged entity is dropped on directory `dir` and moves there,
    /// even where `dir` lies below it.
    pub fn drop_on(&self, vfs: &mut Vfs, dir: usize) -> (r: Result<(), DropError>)
        requires
            old(vfs)@.wf(),
            dir < old(vfs)@.dirs.len(),
        ensures
            final(vfs)@.wf(),
            r == (match self.dragged {
                None => Err(DropError::NoTarget),
                Some(t) => if old(vfs)@.movable(t) {
                    Ok(())
                } else {
                    Err(DropError::NotFound)
                },
            }),
            r is Ok ==> final(vfs)@ == old(vfs)@.detach(self.dragged->0).attach(
                dir as int,
                self.dragged->0,
            ),
            r is Err ==> final(vfs)@ == old(vfs)@,
    {
        match self.dragged {
            None => Err(DropError::NoTarget),
            Some(t) => match vfs.move_to(t, dir) {
                Ok(()) => Ok(()),
                Err(_) => Err(DropError::NotFound),
            },
        }
    }
}

/// Tells whether `key` names the Enter key.
fn is_enter_key(key: &str) -> (r: bool)
    ensures
        r == is_enter(key@),
{
    let enter = "Enter";
    proof {
        reveal_strlit("Enter");
    }
    let n = key.unicode_len();
    if n != 5 {
        return false;
    }
    let mut i: usize = 0;
    while i < 5
        invariant
            n == key@.len(),
            n == 5,
            enter@ == "Enter"@,
            enter@.len() == 5,
            0 <= i <= 5,
            forall|j: int| 0 <= j < i ==> key@[j] == enter@[j],
        decreases 5 - i,
    {
        if key.get_char(i) != enter.get_char(i) {
            return false;
        }
        i = i + 1;
    }
    assert(key@ =~= enter@);
    true
}

} // verus!
